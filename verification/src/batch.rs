//! Buffers that turn single events into larger reads and writes.
use crate::event::{
    ends_batch, first_end, first_end_unique, report_or_dropped, InputEvent, EV_SYN, SYN_DROPPED,
    SYN_REPORT,
};
use vstd::prelude::*;
use vstd::seq_lib::lemma_flatten_concat;

verus! {

/// The number of events to buffer before writing.
///
/// Mice, keyboards, controllers and touchpads rarely have more than 10 events to a batch.
pub const BATCH_WRITE_SIZE: usize = 12;

/// One call of a writer: the events that it was handed, and how it failed, if it did.
#[verifier::ext_equal]
pub struct Attempt<E> {
    pub events: Seq<InputEvent>,
    pub failure: Option<E>,
}

/// Something that events can be written to.
pub trait EventSink<E>: Sized {
    /// The calls made so far, in order.
    spec fn log(&self) -> Seq<Attempt<E>>;

    /// Whether the sink can be handed these events.
    spec fn takes(&self, events: Seq<InputEvent>) -> bool;

    /// Whether handing over these events can fail in this way, or succeed for [`None`].
    spec fn answers(&self, events: Seq<InputEvent>, failure: Option<E>) -> bool;

    /// Writes `events`.
    fn hand(&mut self, events: &[InputEvent]) -> (result: Result<(), E>)
        requires
            old(self).takes(events@),
        ensures
            final(self).log() == old(self).log().push(
                Attempt { events: events@, failure: result.err() },
            ),
            old(self).answers(events@, result.err()),
            forall|more: Seq<InputEvent>| #[trigger]
                final(self).takes(more) == old(self).takes(more),
            forall|more: Seq<InputEvent>, failure: Option<E>| #[trigger]
                final(self).answers(more, failure) == old(self).answers(more, failure),
    ;
}

/// Whether `writer` may be handed `events`.
pub open spec fn may_be_handed<E, W: FnMut(&[InputEvent]) -> Result<(), E>>(
    writer: W,
    events: Seq<InputEvent>,
) -> bool {
    forall|written: &[InputEvent]|
        written@ == events ==> #[trigger] call_requires(writer, (written,))
}

/// Whether `writer` may fail in this way when it is handed `events`, or succeed for [`None`].
pub open spec fn may_answer<E, W: FnMut(&[InputEvent]) -> Result<(), E>>(
    writer: W,
    events: Seq<InputEvent>,
    failure: Option<E>,
) -> bool {
    exists|written: &[InputEvent], result: Result<(), E>|
        {
            &&& written@ == events
            &&& result.err() == failure
            &&& #[trigger] call_ensures(writer, (written,), result)
        }
}

/// A closure that events are written to, and the calls of it.
///
/// What a closure does to what it has captured is not visible in contracts, so that the log stands
/// for its calls. That it holds all of them is left unsaid: [`EventSink::hand`] makes one call and
/// logs it, and nothing else reaches the closure.
pub struct Logged<W, E> {
    writer: W,
    calls: Ghost<Seq<Attempt<E>>>,
}

impl<E, W: FnMut(&[InputEvent]) -> Result<(), E>> Logged<W, E> {
    /// Makes a sink of `writer`, which has not been called yet.
    pub fn new(writer: W) -> (sink: Self)
        ensures
            sink.log() == Seq::<Attempt<E>>::empty(),
            forall|events: Seq<InputEvent>| #[trigger]
                sink.takes(events) == may_be_handed(writer, events),
            forall|events: Seq<InputEvent>, failure: Option<E>| #[trigger]
                sink.answers(events, failure) == may_answer(writer, events, failure),
    {
        Logged { writer, calls: Ghost(Seq::empty()) }
    }
}

impl<E, W: FnMut(&[InputEvent]) -> Result<(), E>> EventSink<E> for Logged<W, E> {
    closed spec fn log(&self) -> Seq<Attempt<E>> {
        self.calls@
    }

    closed spec fn takes(&self, events: Seq<InputEvent>) -> bool {
        may_be_handed(self.writer, events)
    }

    closed spec fn answers(&self, events: Seq<InputEvent>, failure: Option<E>) -> bool {
        may_answer(self.writer, events, failure)
    }

    fn hand(&mut self, events: &[InputEvent]) -> (result: Result<(), E>) {
        let result = (self.writer)(events);
        self.calls = Ghost(self.calls@.push(Attempt { events: events@, failure: result.err() }));
        result
    }
}

/// Collects events so that they can be written together.
///
/// The sinks that are handed to it receive the events to write, in order.
#[derive(Debug)]
pub struct BatchWriter {
    /// The events that wait. There is no room for more than [`BATCH_WRITE_SIZE`] of them.
    buffer: Vec<InputEvent>,
}

impl View for BatchWriter {
    type V = Seq<InputEvent>;

    /// The events that wait to be written.
    closed spec fn view(&self) -> Seq<InputEvent> {
        self.buffer@
    }
}

/// Whether the events that wait have to be written before `events` can be accepted.
pub open spec fn must_flush(waiting: Seq<InputEvent>, events: Seq<InputEvent>) -> bool {
    waiting.len() > 0 && waiting.len() + events.len() > BATCH_WRITE_SIZE
}

/// Whether `events` are written without waiting.
pub open spec fn writes_directly(events: Seq<InputEvent>) -> bool {
    events.len() >= BATCH_WRITE_SIZE
}

/// The events that wait after `events` have been accepted.
pub open spec fn kept(waiting: Seq<InputEvent>, events: Seq<InputEvent>) -> Seq<InputEvent> {
    if writes_directly(events) {
        Seq::empty()
    } else if must_flush(waiting, events) {
        events
    } else {
        waiting + events
    }
}

/// A call that succeeded.
pub open spec fn success<E>(events: Seq<InputEvent>) -> Attempt<E> {
    Attempt { events, failure: None }
}

/// The call that writes the events that wait, if `flush` says that they are written.
pub open spec fn flushes<E>(waiting: Seq<InputEvent>, flush: bool) -> Seq<Attempt<E>> {
    if flush {
        seq![success(waiting)]
    } else {
        Seq::empty()
    }
}

/// The calls made to accept `events` when none of them fails: one for the events that wait, if they
/// have to be written first, and one for `events`, if these do not wait.
pub open spec fn calls_to_accept<E>(
    waiting: Seq<InputEvent>,
    events: Seq<InputEvent>,
) -> Seq<Attempt<E>> {
    let flushed = flushes(waiting, must_flush(waiting, events));
    if writes_directly(events) {
        flushed.push(success(events))
    } else {
        flushed
    }
}

/// The call made to write all events that wait when it does not fail: none if there are no events.
pub open spec fn calls_to_flush<E>(waiting: Seq<InputEvent>) -> Seq<Attempt<E>> {
    flushes(waiting, waiting.len() > 0)
}

/// Whether the sink is as before, except that it has been called, and has answered these calls as
/// it can.
pub open spec fn only_called<E, S: EventSink<E>>(before: S, after: S) -> bool {
    &&& forall|more: Seq<InputEvent>| #[trigger] after.takes(more) == before.takes(more)
    &&& forall|more: Seq<InputEvent>, failure: Option<E>| #[trigger]
        after.answers(more, failure) == before.answers(more, failure)
    &&& forall|i: int|
        before.log().len() <= i < after.log().len() ==> before.answers(
            (#[trigger] after.log()[i]).events,
            after.log()[i].failure,
        )
}

impl BatchWriter {
    /// Whether the events that wait fit in the buffer.
    pub closed spec fn wf(&self) -> bool {
        self.buffer@.len() <= BATCH_WRITE_SIZE
    }

    /// There never wait more events than fit in the buffer.
    pub proof fn buffer_is_bounded(&self)
        requires
            self.wf(),
        ensures
            self@.len() <= BATCH_WRITE_SIZE,
    {
    }

    /// Creates an empty buffer.
    pub fn new() -> (writer: Self)
        ensures
            writer.wf(),
            writer@ == Seq::<InputEvent>::empty(),
    {
        BatchWriter { buffer: Vec::with_capacity(BATCH_WRITE_SIZE) }
    }

    /// Returns the number of events that wait.
    pub fn bufpos(&self) -> (bufpos: usize)
        requires
            self.wf(),
        ensures
            bufpos == self@.len(),
    {
        self.buffer.len()
    }

    /// Returns the events that wait.
    pub fn waiting(&self) -> (events: &[InputEvent])
        requires
            self.wf(),
        ensures
            events@ == self@,
    {
        self.buffer.as_slice()
    }

    /// Accepts `events`.
    ///
    /// If they do not fit in the buffer, the events that wait are written to `sink` first. If they
    /// would fill the buffer by themselves, they are then written to `sink` too. Otherwise they
    /// wait. When the events that wait cannot be written, they are kept, and `events` are not
    /// accepted. Nothing more is written after a failure.
    pub fn write_to<E, S: EventSink<E>>(&mut self, events: &[InputEvent], sink: &mut S) -> (result:
        Result<(), E>)
        requires
            old(self).wf(),
            must_flush(old(self)@, events@) ==> old(sink).takes(old(self)@),
            writes_directly(events@) ==> old(sink).takes(events@),
        ensures
            final(self).wf(),
            only_called(*old(sink), *final(sink)),
            match result {
                Ok(_) => {
                    &&& final(self)@ == kept(old(self)@, events@)
                    &&& final(sink).log() == old(sink).log() + calls_to_accept(old(self)@, events@)
                },
                Err(_) => {
                    ||| {
                        &&& must_flush(old(self)@, events@)
                        &&& final(self)@ == old(self)@
                        &&& final(sink).log() == old(sink).log().push(
                            Attempt { events: old(self)@, failure: result.err() },
                        )
                    }
                    ||| {
                        &&& writes_directly(events@)
                        &&& final(self)@ == Seq::<InputEvent>::empty()
                        &&& final(sink).log() == (old(sink).log() + flushes(
                            old(self)@,
                            must_flush(old(self)@, events@),
                        )).push(Attempt { events: events@, failure: result.err() })
                    }
                },
            },
    {
        let remaining = BATCH_WRITE_SIZE - self.buffer.len();
        if events.len() > remaining {
            let flushed = self.flush_to(sink);
            if flushed.is_err() {
                return flushed;
            }
        }
        if events.len() >= BATCH_WRITE_SIZE {
            let flushed = self.flush_to(sink);
            if flushed.is_err() {
                return flushed;
            }
            let result = sink.hand(events);
            assert(result is Ok ==> sink.log() =~= old(sink).log() + calls_to_accept(
                old(self)@,
                events@,
            ));
            return result;
        }
        let ghost waiting = self@;
        let mut next: usize = 0;
        assert(waiting + events@.take(0) =~= waiting);
        while next < events.len()
            invariant
                next <= events@.len(),
                waiting.len() + events@.len() <= BATCH_WRITE_SIZE,
                self@ == waiting + events@.take(next as int),
            decreases events@.len() - next,
        {
            assert(waiting + events@.take(next + 1) =~= self@.push(events@[next as int]));
            self.buffer.push(events[next]);
            next = next + 1;
        }
        assert(events@.take(next as int) =~= events@);
        Ok(())
    }

    /// Writes the events that wait to `sink`, if there are any. They are kept when they cannot be
    /// written.
    pub fn flush_to<E, S: EventSink<E>>(&mut self, sink: &mut S) -> (result: Result<(), E>)
        requires
            old(self).wf(),
            old(self)@.len() > 0 ==> old(sink).takes(old(self)@),
        ensures
            final(self).wf(),
            only_called(*old(sink), *final(sink)),
            match result {
                Ok(_) => {
                    &&& final(self)@ == Seq::<InputEvent>::empty()
                    &&& final(sink).log() == old(sink).log() + calls_to_flush(old(self)@)
                },
                Err(_) => {
                    &&& old(self)@.len() > 0
                    &&& final(self)@ == old(self)@
                    &&& final(sink).log() == old(sink).log().push(
                        Attempt { events: old(self)@, failure: result.err() },
                    )
                },
            },
    {
        if self.buffer.len() == 0 {
            assert(self@ =~= Seq::<InputEvent>::empty());
            return Ok(());
        }
        let result = sink.hand(self.waiting());
        if result.is_ok() {
            self.buffer.clear();
            assert(sink.log() =~= old(sink).log() + calls_to_flush(old(self)@));
        }
        result
    }
}

/// The events that were handed over in these calls, in order.
pub open spec fn handed_over<E>(calls: Seq<Attempt<E>>) -> Seq<InputEvent> {
    calls.map_values(|call: Attempt<E>| call.events).flatten()
}

/// The calls made to accept all of `batches`, one after the other, when none of them fails.
pub open spec fn calls_to_accept_all<E>(
    waiting: Seq<InputEvent>,
    batches: Seq<Seq<InputEvent>>,
) -> Seq<Attempt<E>>
    decreases batches.len(),
{
    if batches.len() == 0 {
        Seq::empty()
    } else {
        calls_to_accept::<E>(waiting, batches[0]) + calls_to_accept_all::<E>(
            kept(waiting, batches[0]),
            batches.drop_first(),
        )
    }
}

/// The events that wait after all of `batches` have been accepted, one after the other.
pub open spec fn kept_of_all(
    waiting: Seq<InputEvent>,
    batches: Seq<Seq<InputEvent>>,
) -> Seq<InputEvent>
    decreases batches.len(),
{
    if batches.len() == 0 {
        waiting
    } else {
        kept_of_all(kept(waiting, batches[0]), batches.drop_first())
    }
}

/// What is handed over in two series of calls is what is handed over in the first, followed by what
/// is handed over in the second.
proof fn handed_over_in_both<E>(first: Seq<Attempt<E>>, second: Seq<Attempt<E>>)
    ensures
        handed_over(first + second) == handed_over(first) + handed_over(second),
{
    let events = |call: Attempt<E>| call.events;
    assert((first + second).map_values(events) =~= first.map_values(events) + second.map_values(
        events,
    ));
    lemma_flatten_concat(first.map_values(events), second.map_values(events));
}

/// What is handed over in a single call.
proof fn handed_over_in_one<E>(call: Attempt<E>)
    ensures
        handed_over(seq![call]) == call.events,
{
    let events = |call: Attempt<E>| call.events;
    assert(seq![call].map_values(events) =~= seq![call.events]);
    seq![call.events].lemma_flatten_one_element();
}

/// Accepting events neither loses, repeats nor reorders any: those that the sink has been handed
/// and those that wait, taken together, are those that waited and those that came in.
pub proof fn writes_keep_order<E>(waiting: Seq<InputEvent>, events: Seq<InputEvent>)
    requires
        waiting.len() <= BATCH_WRITE_SIZE,
    ensures
        handed_over(calls_to_accept::<E>(waiting, events)) + kept(waiting, events) == waiting
            + events,
        kept(waiting, events).len() <= BATCH_WRITE_SIZE,
{
    let flushed = flushes::<E>(waiting, must_flush(waiting, events));
    handed_over_in_one(success::<E>(waiting));
    handed_over_in_one(success::<E>(events));
    handed_over_in_both(flushed, seq![success::<E>(events)]);
    assert(flushed.push(success::<E>(events)) =~= flushed + seq![success::<E>(events)]);
    assert(handed_over(calls_to_accept::<E>(waiting, events)) + kept(waiting, events) =~= waiting
        + events);
}

/// Writing the events that wait hands over exactly these.
pub proof fn flush_writes_what_waits<E>(waiting: Seq<InputEvent>)
    ensures
        handed_over(calls_to_flush::<E>(waiting)) == waiting,
{
    handed_over_in_one(success::<E>(waiting));
    assert(handed_over(calls_to_flush::<E>(waiting)) =~= waiting);
}

/// However events are divided into batches, once they are flushed the sink has been handed exactly
/// these events, in order, and it has never been called without events.
pub proof fn all_batches_are_written<E>(waiting: Seq<InputEvent>, batches: Seq<Seq<InputEvent>>)
    requires
        waiting.len() <= BATCH_WRITE_SIZE,
    ensures
        ({
            let left = kept_of_all(waiting, batches);
            let calls = calls_to_accept_all::<E>(waiting, batches) + calls_to_flush::<E>(left);
            &&& left.len() <= BATCH_WRITE_SIZE
            &&& handed_over(calls) == waiting + batches.flatten()
            &&& forall|i: int| 0 <= i < calls.len() ==> (#[trigger] calls[i]).events.len() > 0
        }),
    decreases batches.len(),
{
    let left = kept_of_all(waiting, batches);
    let flush = calls_to_flush::<E>(left);
    let calls = calls_to_accept_all::<E>(waiting, batches) + flush;
    if batches.len() == 0 {
        flush_writes_what_waits::<E>(waiting);
        assert(calls =~= flush);
        assert(waiting + batches.flatten() =~= waiting);
    } else {
        let events = batches[0];
        let rest = batches.drop_first();
        let first = calls_to_accept::<E>(waiting, events);
        let then = calls_to_accept_all::<E>(kept(waiting, events), rest) + flush;
        writes_keep_order::<E>(waiting, events);
        all_batches_are_written::<E>(kept(waiting, events), rest);
        assert(calls =~= first + then);
        handed_over_in_both(first, then);
        assert(batches.flatten() == events + rest.flatten());
        assert(handed_over(first) + (kept(waiting, events) + rest.flatten()) =~= (handed_over(first)
            + kept(waiting, events)) + rest.flatten());
        assert(waiting + (events + rest.flatten()) =~= (waiting + events) + rest.flatten());
        assert forall|i: int| 0 <= i < calls.len() implies (#[trigger] calls[i]).events.len()
            > 0 by {
            if i < first.len() {
                assert(calls[i] == first[i]);
            } else {
                assert(calls[i] == then[i - first.len()]);
            }
        }
    }
}

/// The position past the first event of `events` that ends a batch, when `waiting` come before
/// them. If there is none, no batch is complete.
pub open spec fn batch_end(waiting: Seq<InputEvent>, events: Seq<InputEvent>) -> int {
    waiting.len() + first_end(events) as int + 1
}

/// The events that are handed out when `events` are read after `waiting`.
pub open spec fn completed(waiting: Seq<InputEvent>, events: Seq<InputEvent>) -> Seq<InputEvent> {
    if first_end(events) < events.len() {
        (waiting + events).take(batch_end(waiting, events))
    } else {
        Seq::empty()
    }
}

/// The events that wait after `events` have been read after `waiting`.
pub open spec fn incomplete(waiting: Seq<InputEvent>, events: Seq<InputEvent>) -> Seq<InputEvent> {
    if first_end(events) < events.len() {
        (waiting + events).skip(batch_end(waiting, events))
    } else {
        waiting + events
    }
}

/// The events that have been handed out after several reads.
pub open spec fn completed_in_all(
    waiting: Seq<InputEvent>,
    reads: Seq<Seq<InputEvent>>,
) -> Seq<InputEvent>
    decreases reads.len(),
{
    if reads.len() == 0 {
        Seq::empty()
    } else {
        completed(waiting, reads[0]) + completed_in_all(
            incomplete(waiting, reads[0]),
            reads.drop_first(),
        )
    }
}

/// The events that wait after several reads.
pub open spec fn incomplete_after_all(
    waiting: Seq<InputEvent>,
    reads: Seq<Seq<InputEvent>>,
) -> Seq<InputEvent>
    decreases reads.len(),
{
    if reads.len() == 0 {
        waiting
    } else {
        incomplete_after_all(incomplete(waiting, reads[0]), reads.drop_first())
    }
}

/// Reading neither loses, repeats nor reorders any events: those that have been handed out and
/// those that wait, taken together, are those that waited and those that were read.
pub proof fn reads_keep_order(waiting: Seq<InputEvent>, reads: Seq<Seq<InputEvent>>)
    ensures
        completed_in_all(waiting, reads) + incomplete_after_all(waiting, reads) == waiting
            + reads.flatten(),
    decreases reads.len(),
{
    if reads.len() == 0 {
        assert(Seq::<InputEvent>::empty() + waiting =~= waiting + reads.flatten());
    } else {
        let events = reads[0];
        let rest = reads.drop_first();
        let done = completed(waiting, events);
        let left = incomplete(waiting, events);
        reads_keep_order(left, rest);
        assert(done + left =~= waiting + events);
        assert((done + completed_in_all(left, rest)) + incomplete_after_all(left, rest) =~= done + (
        completed_in_all(left, rest) + incomplete_after_all(left, rest)));
        assert(done + (left + rest.flatten()) =~= (done + left) + rest.flatten());
        assert(reads.flatten() == events + rest.flatten());
        assert((waiting + events) + rest.flatten() =~= waiting + (events + rest.flatten()));
    }
}

/// Collects the events that are read until a batch is complete.
#[derive(Debug)]
pub struct BatchReader {
    /// It is not known beforehand how many events there are until the next `SYN_REPORT`.
    buf: Vec<InputEvent>,
}

impl View for BatchReader {
    type V = Seq<InputEvent>;

    /// The events that wait.
    closed spec fn view(&self) -> Seq<InputEvent> {
        self.buf@
    }
}

impl BatchReader {
    /// Creates an empty buffer.
    pub fn new() -> (reader: Self)
        ensures
            reader@ == Seq::<InputEvent>::empty(),
    {
        BatchReader { buf: Vec::new() }
    }

    /// Takes in events that were read.
    ///
    /// Returns [`None`] when there is no event among them that finishes a batch. Otherwise returns
    /// all events up to and including the first such event. `SYN_REPORT` and `SYN_DROPPED` are not
    /// distinguished. Unknown markers are kept until the batch is finished.
    pub fn fill(&mut self, events: &[InputEvent]) -> (batch: Option<Vec<InputEvent>>)
        requires
            events@.len() > 0,
        ensures
            match batch {
                Some(batch) => {
                    &&& first_end(events@) < events@.len()
                    &&& batch@ == completed(old(self)@, events@)
                },
                None => first_end(events@) == events@.len(),
            },
            final(self)@ == incomplete(old(self)@, events@),
    {
        let ghost waiting = self.buf@;
        let mut end: Option<usize> = None;
        let mut next: usize = 0;
        assert(waiting + events@.take(0) =~= waiting);
        while next < events.len()
            invariant
                next <= events@.len(),
                self.buf@ == waiting + events@.take(next as int),
                match end {
                    None => forall|i: int| 0 <= i < next ==> !ends_batch(#[trigger] events@[i]),
                    Some(end) => {
                        &&& waiting.len() < end <= waiting.len() + next
                        &&& first_end(events@) == end - waiting.len() - 1
                    },
                },
            decreases events@.len() - next,
        {
            let event = events[next];
            assert(waiting + events@.take(next + 1) =~= (waiting + events@.take(next as int)).push(
                event,
            ));
            self.buf.push(event);
            if end.is_none() && report_or_dropped(&event) {
                proof {
                    first_end_unique(events@, next as int);
                }
                end = Some(self.buf.len());
            }
            next = next + 1;
        }
        assert(events@.take(next as int) =~= events@);
        match end {
            Some(end) => {
                let mut batch = self.buf.split_off(end);
                std::mem::swap(&mut self.buf, &mut batch);
                Some(batch)
            },
            None => {
                proof {
                    first_end_unique(events@, next as int);
                }
                None
            },
        }
    }
}

/// Events wait as long as they fit in the buffer of 12 with those that wait already, and are fewer
/// than 12. Events that do not fit have the waiting ones written first, in one call. Events that
/// would fill the buffer are then written too, in a call of their own, and nothing waits.
pub proof fn writes_come_in_three_kinds<E>(waiting: Seq<InputEvent>, events: Seq<InputEvent>)
    requires
        waiting.len() <= 12,
    ensures
        ({
            let calls = calls_to_accept::<E>(waiting, events);
            let left = kept(waiting, events);
            &&& events.len() < 12 && waiting.len() + events.len() <= 12 ==> {
                &&& calls.len() == 0
                &&& left == waiting + events
            }
            &&& events.len() < 12 && waiting.len() + events.len() > 12 ==> {
                &&& calls.len() == 1
                &&& calls[0].events == waiting
                &&& left == events
            }
            &&& events.len() >= 12 && waiting.len() == 0 ==> {
                &&& calls.len() == 1
                &&& calls[0].events == events
                &&& left.len() == 0
            }
            &&& events.len() >= 12 && waiting.len() > 0 ==> {
                &&& calls.len() == 2
                &&& calls[0].events == waiting
                &&& calls[1].events == events
                &&& left.len() == 0
            }
            &&& forall|i: int| 0 <= i < calls.len() ==> (#[trigger] calls[i]).failure is None
        }),
{
}

/// Flushing takes one call with all events that wait, and none if there are no such events. Where a
/// write that fails leaves off, it has made the calls before the failing one.
pub proof fn flush_takes_one_call<E>(waiting: Seq<InputEvent>, flush: bool)
    ensures
        waiting.len() == 0 ==> calls_to_flush::<E>(waiting).len() == 0,
        waiting.len() > 0 ==> {
            let calls = calls_to_flush::<E>(waiting);
            calls.len() == 1 && calls[0].events == waiting && calls[0].failure is None
        },
        flushes::<E>(waiting, flush).len() == if flush {
            1int
        } else {
            0
        },
        flush ==> flushes::<E>(waiting, flush)[0].events == waiting && flushes::<E>(
            waiting,
            flush,
        )[0].failure is None,
{
}

/// Events are handed over in the order in which they are in the calls, and in the order of the calls.
pub proof fn calls_hand_over_their_events<E>(calls: Seq<Attempt<E>>, call: Attempt<E>)
    ensures
        handed_over(Seq::<Attempt<E>>::empty()) == Seq::<InputEvent>::empty(),
        handed_over(calls.push(call)) == handed_over(calls) + call.events,
{
    let events = |call: Attempt<E>| call.events;
    assert(Seq::<Attempt<E>>::empty().map_values(events) =~= Seq::<Seq<InputEvent>>::empty());
    handed_over_in_both(calls, seq![call]);
    handed_over_in_one(call);
    assert(calls.push(call) =~= calls + seq![call]);
}

/// A read that has a `SYN_REPORT` or a `SYN_DROPPED` in it, the first at `end`, completes a batch: all
/// events that waited and those of the read up to and including that event. The others wait. A
/// read without such an event completes none, and all its events wait.
pub proof fn first_marker_completes_the_batch(
    waiting: Seq<InputEvent>,
    events: Seq<InputEvent>,
    end: int,
)
    requires
        0 <= end <= events.len(),
        forall|i: int|
            0 <= i < end ==> !((#[trigger] events[i]).kind == EV_SYN && (events[i].code
                == SYN_REPORT || events[i].code == SYN_DROPPED)),
        end < events.len() ==> events[end].kind == EV_SYN && (events[end].code == SYN_REPORT
            || events[end].code == SYN_DROPPED),
    ensures
        end < events.len() ==> {
            &&& completed(waiting, events) == waiting + events.take(end + 1)
            &&& incomplete(waiting, events) == events.skip(end + 1)
        },
        end == events.len() ==> {
            &&& completed(waiting, events).len() == 0
            &&& incomplete(waiting, events) == waiting + events
        },
        first_end(events) < events.len() <==> end < events.len(),
{
    assert forall|i: int| 0 <= i < end implies !ends_batch(#[trigger] events[i]) by {}
    first_end_unique(events, end);
    if end < events.len() {
        assert(completed(waiting, events) =~= waiting + events.take(end + 1));
        assert(incomplete(waiting, events) =~= events.skip(end + 1));
    }
}

/// What comes of handing events to a closure is what the closure returns: if it always fails in the
/// same way on these events, or always succeeds, nothing else can come of it.
pub proof fn answers_come_from_the_closure<E, W: FnMut(&[InputEvent]) -> Result<(), E>>(
    writer: W,
    events: Seq<InputEvent>,
    failure: Option<E>,
    expected: Option<E>,
)
    requires
        may_answer(writer, events, failure),
        forall|written: &[InputEvent], result: Result<(), E>|
            written@ == events && #[trigger] call_ensures(writer, (written,), result) ==> (match result {
                Ok(_) => expected is None,
                Err(error) => expected == Some(error),
            }),
    ensures
        failure == expected,
{
}

/// A sink that has only been called takes the same events as before, and every call of it has been
/// answered as it could be at first. That holds over several such steps.
pub proof fn calls_are_answered_by_the_sink<E, S: EventSink<E>>(
    before: S,
    after: S,
    later: S,
    events: Seq<InputEvent>,
    index: int,
)
    requires
        only_called::<E, S>(before, after),
        only_called::<E, S>(after, later),
        before.log().len() <= after.log().len() <= later.log().len(),
        forall|i: int|
            0 <= i < after.log().len() ==> #[trigger] later.log()[i] == after.log()[i],
        before.log().len() <= index < later.log().len(),
    ensures
        later.takes(events) == before.takes(events),
        before.answers(later.log()[index].events, later.log()[index].failure),
{
    if index < after.log().len() {
        assert(later.log()[index] == after.log()[index]);
    } else {
        assert(after.answers(later.log()[index].events, later.log()[index].failure));
    }
}

} // verus!
