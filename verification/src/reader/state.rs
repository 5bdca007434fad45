//! The state of a device, as its events tell it.
use crate::bits::{ascending, difference, difference_is_exact, push_keeps_ascending, BitSet};
use crate::event::{
    switch_value, Abs, BitValue, EventKind, InputEvent, Key, KeyState, Led, Sound, Switch, Syn,
    Timestamp, ABS_MT_SLOT, EV_ABS, EV_KEY, EV_LED, EV_SND, EV_SW, EV_SYN, SYN_REPORT,
};
use crate::reader::mt::{MtStorage, MtView};
use std::collections::VecDeque;
use vstd::prelude::*;

verus! {

/// The number of absolute axes that are not part of multitouch.
pub const AXES: usize = 47;

/// The state of a device.
#[verifier::ext_equal]
pub struct StateView {
    /// The keys that are pressed.
    pub keys: Set<u16>,
    /// The LEDs that are on.
    pub leds: Set<u16>,
    /// The sounds that are playing.
    pub sounds: Set<u16>,
    /// The switches that are active.
    pub switches: Set<u16>,
    /// The values of the axes below `ABS_MT_SLOT`.
    pub abs: Seq<i32>,
    /// The absolute axes that the device has.
    pub abs_axes: Set<u16>,
    /// The multitouch state.
    pub mt: MtView,
    /// When the last batch of events ended.
    pub last_event: Timestamp,
}

/// `set` with or without `code`.
pub open spec fn with_member(set: Set<u16>, code: u16, present: bool) -> Set<u16> {
    if present {
        set.insert(code)
    } else {
        set.remove(code)
    }
}

impl StateView {
    /// Whether both states have the same keys, LEDs, sounds, switches and axes.
    pub open spec fn agrees_with(self, other: StateView) -> bool {
        &&& self.keys == other.keys
        &&& self.leds == other.leds
        &&& self.sounds == other.sounds
        &&& self.switches == other.switches
        &&& self.abs == other.abs
    }

    /// The state after `event`.
    pub open spec fn apply(self, event: InputEvent) -> StateView {
        let on = event.value != 0;
        if event.kind == EV_ABS {
            if event.code < ABS_MT_SLOT {
                StateView { abs: self.abs.update(event.code as int, event.value), ..self }
            } else if event.code == ABS_MT_SLOT {
                StateView { mt: MtView { active_slot: event.value as u32, ..self.mt }, ..self }
            } else {
                StateView { mt: self.mt.with_value(event.code, event.value), ..self }
            }
        } else if event.kind == EV_KEY {
            if event.value == 0 || event.value == 1 {
                StateView { keys: with_member(self.keys, event.code, on), ..self }
            } else {
                self
            }
        } else if event.kind == EV_LED {
            StateView { leds: with_member(self.leds, event.code, on), ..self }
        } else if event.kind == EV_SW {
            StateView { switches: with_member(self.switches, event.code, on), ..self }
        } else if event.kind == EV_SND {
            StateView { sounds: with_member(self.sounds, event.code, on), ..self }
        } else {
            self
        }
    }

    /// The state after `events`, in order.
    pub open spec fn apply_all(self, events: Seq<InputEvent>) -> StateView
        decreases events.len(),
    {
        if events.len() == 0 {
            self
        } else {
            self.apply_all(events.drop_last()).apply(events.last())
        }
    }

    /// The state after it has been brought up to date with what the device reports. Multitouch
    /// state is taken over only if the device has slots.
    pub open spec fn resynced(self, current: StateView) -> StateView {
        StateView {
            keys: current.keys,
            leds: current.leds,
            sounds: current.sounds,
            switches: current.switches,
            abs: current.abs,
            abs_axes: self.abs_axes,
            mt: if self.abs_axes.contains(ABS_MT_SLOT) {
                current.mt
            } else {
                self.mt
            },
            last_event: self.last_event,
        }
    }

    /// The events that turn this state into `current`, multitouch excepted: keys, LEDs, sounds,
    /// switches and axes, each in ascending order of their codes.
    pub open spec fn changes(self, current: StateView) -> Seq<InputEvent> {
        let time = self.last_event;
        toggles(self.keys, current.keys, EV_KEY, time) + toggles(
            self.leds,
            current.leds,
            EV_LED,
            time,
        ) + toggles(self.sounds, current.sounds, EV_SND, time) + toggles(
            self.switches,
            current.switches,
            EV_SW,
            time,
        ) + moves(self.abs, current.abs, time)
    }

    /// The changes, followed by a `SYN_REPORT` if there are any.
    pub open spec fn resync_events(self, current: StateView) -> Seq<InputEvent> {
        let changes = self.changes(current);
        if changes.len() == 0 {
            changes
        } else {
            changes.push(report_at(self.last_event))
        }
    }
}

/// A `SYN_REPORT` at the given time.
pub open spec fn report_at(time: Timestamp) -> InputEvent {
    InputEvent { time, kind: EV_SYN, code: SYN_REPORT, value: 0 }
}

/// The event that reports whether `code` is a member of `set`.
pub open spec fn toggle(set: Set<u16>, kind: u16, time: Timestamp, code: u16) -> InputEvent {
    InputEvent { time, kind, code, value: switch_value(set.contains(code)) }
}

/// The events that turn `a` into `b`, in ascending order of their codes.
pub open spec fn toggles(a: Set<u16>, b: Set<u16>, kind: u16, time: Timestamp) -> Seq<InputEvent> {
    difference(a, b).map_values(|code: u16| toggle(b, kind, time, code))
}

/// The event that reports that an axis is at `value`.
pub open spec fn move_to(axis: u16, value: i32, time: Timestamp) -> InputEvent {
    InputEvent { time, kind: EV_ABS, code: axis, value }
}

/// The events that move the axes below `limit` from the values `a` to the values `b`, in ascending
/// order of their codes.
pub open spec fn moves_below(a: Seq<i32>, b: Seq<i32>, time: Timestamp, limit: nat) -> Seq<
    InputEvent,
>
    decreases limit,
{
    if limit == 0 {
        Seq::empty()
    } else {
        let axis = limit - 1;
        let below = moves_below(a, b, time, axis as nat);
        if a[axis] != b[axis] {
            below.push(move_to(axis as u16, b[axis], time))
        } else {
            below
        }
    }
}

/// The events that move the axes from the values `a` to the values `b`.
pub open spec fn moves(a: Seq<i32>, b: Seq<i32>, time: Timestamp) -> Seq<InputEvent> {
    moves_below(a, b, time, AXES as nat)
}

/// The code of each event.
pub open spec fn codes_of(events: Seq<InputEvent>) -> Seq<u16> {
    events.map_values(|event: InputEvent| event.code)
}

/// The toggles report each code that is in exactly one of the sets once, in ascending order, and no
/// other code. They say whether it is in `b`.
pub proof fn toggles_tell_each_change(a: Set<u16>, b: Set<u16>, kind: u16, time: Timestamp)
    ensures
        ascending(codes_of(toggles(a, b, kind, time))),
        forall|code: u16| #[trigger]
            codes_of(toggles(a, b, kind, time)).contains(code) <==> a.contains(code) != b.contains(
                code,
            ),
        forall|i: int|
            0 <= i < toggles(a, b, kind, time).len() ==> {
                let event = #[trigger] toggles(a, b, kind, time)[i];
                event == toggle(b, kind, time, event.code)
            },
{
    difference_is_exact(a, b);
    assert(codes_of(toggles(a, b, kind, time)) =~= difference(a, b));
}

/// The moves below `limit` report each axis that has moved once, in ascending order, and no other
/// axis. They say where it is in `b`.
proof fn moves_below_tell_each_change(a: Seq<i32>, b: Seq<i32>, time: Timestamp, limit: nat)
    requires
        limit <= AXES,
    ensures
        ({
            let moves = moves_below(a, b, time, limit);
            &&& ascending(codes_of(moves))
            &&& forall|code: u16| #[trigger]
                codes_of(moves).contains(code) <==> code < limit && a[code as int] != b[code as int]
            &&& forall|i: int|
                0 <= i < moves.len() ==> {
                    let event = #[trigger] moves[i];
                    &&& event.code < limit
                    &&& event == move_to(event.code, b[event.code as int], time)
                }
        }),
    decreases limit,
{
    if limit > 0 {
        let axis = limit - 1;
        let below = moves_below(a, b, time, axis as nat);
        moves_below_tell_each_change(a, b, time, axis as nat);
        if a[axis] != b[axis] {
            let moves = moves_below(a, b, time, limit);
            let codes = codes_of(below);
            assert(codes_of(moves) =~= codes.push(axis as u16));
            assert forall|i: int| 0 <= i < codes.len() implies #[trigger] codes[i] < axis by {
                assert(codes[i] == below[i].code);
            }
            push_keeps_ascending(codes, axis as u16);
            assert forall|i: int| 0 <= i < moves.len() implies {
                let event = #[trigger] moves[i];
                &&& event.code < limit
                &&& event == move_to(event.code, b[event.code as int], time)
            } by {
                if i < below.len() {
                    assert(moves[i] == below[i]);
                }
            }
        }
    }
}

/// The moves report each axis below `ABS_MT_SLOT` that has moved once, in ascending order, and no
/// other axis. They say where it is in `b`.
pub proof fn moves_tell_each_change(a: Seq<i32>, b: Seq<i32>, time: Timestamp)
    ensures
        ascending(codes_of(moves(a, b, time))),
        forall|code: u16| #[trigger]
            codes_of(moves(a, b, time)).contains(code) <==> code < ABS_MT_SLOT && a[code as int]
                != b[code as int],
        forall|i: int|
            0 <= i < moves(a, b, time).len() ==> {
                let event = #[trigger] moves(a, b, time)[i];
                &&& event.code < ABS_MT_SLOT
                &&& event == move_to(event.code, b[event.code as int], time)
            },
{
    moves_below_tell_each_change(a, b, time, AXES as nat);
}

/// The state of a device.
pub struct DeviceState {
    keys: BitSet<Key>,
    leds: BitSet<Led>,
    sounds: BitSet<Sound>,
    switches: BitSet<Switch>,
    abs: [i32; AXES],
    abs_axes: BitSet<Abs>,
    mt_storage: MtStorage,
    last_event: Timestamp,
}

impl View for DeviceState {
    type V = StateView;

    closed spec fn view(&self) -> StateView {
        StateView {
            keys: self.keys@,
            leds: self.leds@,
            sounds: self.sounds@,
            switches: self.switches@,
            abs: self.abs@,
            abs_axes: self.abs_axes@,
            mt: self.mt_storage@,
            last_event: self.last_event,
        }
    }
}

/// Turns `dest` into `src` and appends the events that tell so to `queue`.
fn sync_bitset<V: BitValue>(
    dest: &mut BitSet<V>,
    src: &BitSet<V>,
    kind: u16,
    time: Timestamp,
    queue: &mut VecDeque<InputEvent>,
)
    ensures
        final(dest)@ == src@,
        final(queue)@ == old(queue)@ + toggles(old(dest)@, src@, kind, time),
{
    let values = dest.symmetric_difference(src);
    let ghost codes = difference(dest@, src@);
    let ghost events = toggles(dest@, src@, kind, time);
    let ghost queued = queue@;
    proof {
        assert(values@.map_values(|value: V| value.code()).len() == values@.len());
        assert(queued + events.take(0) =~= queued);
    }
    let mut next: usize = 0;
    while next < values.len()
        invariant
            next <= values.len(),
            values@.len() == codes.len(),
            values@.map_values(|value: V| value.code()) == codes,
            events == codes.map_values(|code: u16| toggle(src@, kind, time, code)),
            queue@ == queued + events.take(next as int),
        decreases values.len() - next,
    {
        let value = values[next];
        assert(values@.map_values(|value: V| value.code())[next as int] == value.code());
        let state: i32 = if src.contains(value) {
            1
        } else {
            0
        };
        let event = InputEvent { time, kind, code: value.raw(), value: state };
        assert(event == events[next as int]);
        assert(queued + events.take(next + 1) =~= (queued + events.take(next as int)).push(event));
        queue.push_back(event);
        next = next + 1;
    }
    assert(events.take(next as int) =~= events);
    *dest = src.clone();
}

impl DeviceState {
    /// Whether the multitouch storage is intact.
    pub closed spec fn wf(&self) -> bool {
        self.mt_storage.wf()
    }

    /// There is a value for every axis below `ABS_MT_SLOT`, and one for each slot in every
    /// multitouch group.
    pub proof fn state_is_complete(&self)
        requires
            self.wf(),
        ensures
            self@.abs.len() == AXES,
            self@.mt.is_complete(),
    {
        self.mt_storage.groups_fill_slots();
    }

    /// Creates a state in which nothing is pressed and every axis is at zero.
    ///
    /// `now` stands in for the time of the last event until the device produces one.
    pub fn new(abs_axes: BitSet<Abs>, now: Timestamp) -> (state: Self)
        ensures
            state.wf(),
            state@ == (StateView {
                keys: Set::empty(),
                leds: Set::empty(),
                sounds: Set::empty(),
                switches: Set::empty(),
                abs: Seq::new(AXES as nat, |axis: int| 0i32),
                abs_axes: abs_axes@,
                mt: MtView::empty(),
                last_event: now,
            }),
    {
        let state = DeviceState {
            keys: BitSet::new(),
            leds: BitSet::new(),
            sounds: BitSet::new(),
            switches: BitSet::new(),
            abs: [0i32; AXES],
            abs_axes,
            mt_storage: MtStorage::empty(),
            last_event: now,
        };
        assert(state@.abs =~= Seq::new(AXES as nat, |axis: int| 0i32));
        state
    }

    /// Creates a state from what a device reports.
    pub fn current(
        keys: BitSet<Key>,
        leds: BitSet<Led>,
        sounds: BitSet<Sound>,
        switches: BitSet<Switch>,
        abs: [i32; AXES],
        abs_axes: BitSet<Abs>,
        mt_storage: MtStorage,
        now: Timestamp,
    ) -> (state: Self)
        requires
            mt_storage.wf(),
        ensures
            state.wf(),
            state@ == (StateView {
                keys: keys@,
                leds: leds@,
                sounds: sounds@,
                switches: switches@,
                abs: abs@,
                abs_axes: abs_axes@,
                mt: mt_storage@,
                last_event: now,
            }),
    {
        DeviceState {
            keys,
            leds,
            sounds,
            switches,
            abs,
            abs_axes,
            mt_storage,
            last_event: now,
        }
    }

    /// Brings the state up to date with `src`, and replaces the contents of `queue` with the
    /// events that tell the difference.
    ///
    /// No events are made for multitouch changes.
    pub fn resync_from(&mut self, src: &DeviceState, queue: &mut VecDeque<InputEvent>)
        requires
            old(self).wf(),
            src.wf(),
        ensures
            final(self).wf(),
            final(self)@ == old(self)@.resynced(src@),
            final(queue)@ == old(self)@.resync_events(src@),
    {
        let time = self.last_event;
        queue.clear();
        sync_bitset(&mut self.keys, &src.keys, EV_KEY, time, queue);
        sync_bitset(&mut self.leds, &src.leds, EV_LED, time, queue);
        sync_bitset(&mut self.sounds, &src.sounds, EV_SND, time, queue);
        sync_bitset(&mut self.switches, &src.switches, EV_SW, time, queue);
        let ghost queued = queue@;
        let ghost before = self.abs@;
        let ghost toggled = *self;
        let mut axis: usize = 0;
        assert(queued + moves_below(before, src.abs@, time, 0) =~= queued);
        while axis < AXES
            invariant
                axis <= AXES,
                before.len() == AXES,
                queue@ == queued + moves_below(before, src.abs@, time, axis as nat),
                forall|i: int| 0 <= i < axis ==> self.abs@[i] == src.abs@[i],
                forall|i: int| axis <= i < AXES ==> self.abs@[i] == before[i],
                self.keys == toggled.keys,
                self.leds == toggled.leds,
                self.sounds == toggled.sounds,
                self.switches == toggled.switches,
                self.abs_axes == toggled.abs_axes,
                self.mt_storage == toggled.mt_storage,
                self.last_event == toggled.last_event,
            decreases AXES - axis,
        {
            if self.abs[axis] != src.abs[axis] {
                let event = InputEvent::abs(Abs::from_raw(axis as u16), src.abs[axis]).with_time(
                    time,
                );
                queue.push_back(event);
                self.abs[axis] = src.abs[axis];
            }
            assert(queue@ =~= queued + moves_below(before, src.abs@, time, (axis + 1) as nat));
            axis = axis + 1;
        }
        assert(self.abs@ =~= src.abs@);
        if self.abs_axes.contains(Abs::from_raw(ABS_MT_SLOT)) {
            self.mt_storage.resync_from(&src.mt_storage);
        }
        assert(queue@ =~= old(self)@.changes(src@));
        if queue.len() > 0 {
            queue.push_back(InputEvent::syn(Syn { raw: SYN_REPORT }).with_time(time));
        }
        assert(self@ =~= old(self)@.resynced(src@));
    }

    /// Updates the state with an event.
    pub fn update_state(&mut self, event: InputEvent)
        requires
            old(self).wf(),
        ensures
            final(self).wf(),
            final(self)@ == old(self)@.apply(event),
    {
        match event.kind() {
            Some(EventKind::Abs(abs, value)) => {
                if abs.raw() < ABS_MT_SLOT {
                    self.abs[abs.raw() as usize] = value;
                } else if abs.raw() == ABS_MT_SLOT {
                    self.mt_storage.select_slot(
                        #[verifier::truncate]
                        (value as u32),
                    );
                } else {
                    self.mt_storage.set_value(abs, value);
                }
            },
            Some(EventKind::Key(key, state)) => match state {
                KeyState::Pressed => {
                    self.keys.insert(key);
                },
                KeyState::Released => {
                    self.keys.remove(key);
                },
                KeyState::Other(_) => {},
            },
            Some(EventKind::Led(led, on)) => {
                if on {
                    self.leds.insert(led);
                } else {
                    self.leds.remove(led);
                }
            },
            Some(EventKind::Switch(switch, on)) => {
                if on {
                    self.switches.insert(switch);
                } else {
                    self.switches.remove(switch);
                }
            },
            Some(EventKind::Sound(sound, on)) => {
                if on {
                    self.sounds.insert(sound);
                } else {
                    self.sounds.remove(sound);
                }
            },
            _ => {},
        }
        assert(self@ =~= old(self)@.apply(event));
    }

    /// Records when the last batch of events ended.
    pub fn set_last_event(&mut self, time: Timestamp)
        requires
            old(self).wf(),
        ensures
            final(self).wf(),
            final(self)@ == (StateView { last_event: time, ..old(self)@ }),
    {
        self.last_event = time;
    }

    /// Returns the keys that are pressed.
    pub fn keys(&self) -> (keys: &BitSet<Key>)
        ensures
            keys@ == self@.keys,
    {
        &self.keys
    }

    /// Returns the LEDs that are on.
    pub fn leds(&self) -> (leds: &BitSet<Led>)
        ensures
            leds@ == self@.leds,
    {
        &self.leds
    }

    /// Returns the sounds that are playing.
    pub fn sounds(&self) -> (sounds: &BitSet<Sound>)
        ensures
            sounds@ == self@.sounds,
    {
        &self.sounds
    }

    /// Returns the switches that are active.
    pub fn switches(&self) -> (switches: &BitSet<Switch>)
        ensures
            switches@ == self@.switches,
    {
        &self.switches
    }

    /// Returns the value of an axis below `ABS_MT_SLOT`.
    pub fn abs(&self, abs: Abs) -> (value: i32)
        requires
            abs.code() < ABS_MT_SLOT,
        ensures
            value == self@.abs[abs.code() as int],
    {
        self.abs[abs.raw() as usize]
    }

    /// Returns the absolute axes that the device has.
    pub fn abs_axes(&self) -> (abs_axes: &BitSet<Abs>)
        ensures
            abs_axes@ == self@.abs_axes,
    {
        &self.abs_axes
    }

    /// Returns when the last batch of events ended.
    pub fn last_event(&self) -> (time: Timestamp)
        ensures
            time == self@.last_event,
    {
        self.last_event
    }

    /// Returns the multitouch state.
    pub fn mt_storage(&self) -> (storage: &MtStorage)
        requires
            self.wf(),
        ensures
            storage.wf(),
            storage@ == self@.mt,
    {
        &self.mt_storage
    }
}

} // verus!
