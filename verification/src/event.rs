//! Input events and the code spaces they are drawn from.
use vstd::prelude::*;

verus! {

/// `EV_SYN`: markers that separate events.
pub const EV_SYN: u16 = 0x00;

/// `EV_KEY`: keys and buttons.
pub const EV_KEY: u16 = 0x01;

/// `EV_REL`: relative axes.
pub const EV_REL: u16 = 0x02;

/// `EV_ABS`: absolute axes.
pub const EV_ABS: u16 = 0x03;

/// `EV_SW`: switches.
pub const EV_SW: u16 = 0x05;

/// `EV_LED`: LEDs.
pub const EV_LED: u16 = 0x11;

/// `EV_SND`: sounds.
pub const EV_SND: u16 = 0x12;

/// `SYN_REPORT`: ends a group of events that belong together.
pub const SYN_REPORT: u16 = 0x00;

/// `SYN_DROPPED`: events were lost.
pub const SYN_DROPPED: u16 = 0x03;

/// `ABS_MT_SLOT`: the axis that selects the multitouch slot. All lower codes are ordinary axes.
pub const ABS_MT_SLOT: u16 = 0x2f;

/// `ABS_MT_TRACKING_ID`: identifies the contact in a multitouch slot.
pub const ABS_MT_TRACKING_ID: u16 = 0x39;

/// `ABS_MAX`: the upper end of the absolute axis codes.
pub const ABS_MAX: u16 = 0x3f;

/// A value that can be a member of a [`BitSet`](crate::bits::BitSet).
pub trait BitValue: Sized + Copy {
    /// The raw code of the value.
    spec fn code(self) -> u16;

    /// Returns the raw code of the value.
    fn raw(self) -> (raw: u16)
        ensures
            raw == self.code(),
    ;

    /// Creates the value that has the given raw code.
    fn from_raw(raw: u16) -> (value: Self)
        ensures
            value.code() == raw,
    ;
}

/// A key or button.
#[derive(Clone, Copy, Debug, PartialEq, Eq, Structural)]
pub struct Key {
    pub raw: u16,
}

/// A relative axis.
#[derive(Clone, Copy, Debug, PartialEq, Eq, Structural)]
pub struct Rel {
    pub raw: u16,
}

/// An absolute axis.
#[derive(Clone, Copy, Debug, PartialEq, Eq, Structural)]
pub struct Abs {
    pub raw: u16,
}

/// An LED.
#[derive(Clone, Copy, Debug, PartialEq, Eq, Structural)]
pub struct Led {
    pub raw: u16,
}

/// A sound.
#[derive(Clone, Copy, Debug, PartialEq, Eq, Structural)]
pub struct Sound {
    pub raw: u16,
}

/// A switch.
#[derive(Clone, Copy, Debug, PartialEq, Eq, Structural)]
pub struct Switch {
    pub raw: u16,
}

impl BitValue for Key {
    open spec fn code(self) -> u16 {
        self.raw
    }

    fn raw(self) -> (raw: u16) {
        self.raw
    }

    fn from_raw(raw: u16) -> (value: Self) {
        Key { raw }
    }
}

impl BitValue for Rel {
    open spec fn code(self) -> u16 {
        self.raw
    }

    fn raw(self) -> (raw: u16) {
        self.raw
    }

    fn from_raw(raw: u16) -> (value: Self) {
        Rel { raw }
    }
}

impl BitValue for Abs {
    open spec fn code(self) -> u16 {
        self.raw
    }

    fn raw(self) -> (raw: u16) {
        self.raw
    }

    fn from_raw(raw: u16) -> (value: Self) {
        Abs { raw }
    }
}

impl BitValue for Led {
    open spec fn code(self) -> u16 {
        self.raw
    }

    fn raw(self) -> (raw: u16) {
        self.raw
    }

    fn from_raw(raw: u16) -> (value: Self) {
        Led { raw }
    }
}

impl BitValue for Sound {
    open spec fn code(self) -> u16 {
        self.raw
    }

    fn raw(self) -> (raw: u16) {
        self.raw
    }

    fn from_raw(raw: u16) -> (value: Self) {
        Sound { raw }
    }
}

impl BitValue for Switch {
    open spec fn code(self) -> u16 {
        self.raw
    }

    fn raw(self) -> (raw: u16) {
        self.raw
    }

    fn from_raw(raw: u16) -> (value: Self) {
        Switch { raw }
    }
}

/// The type of an event, which decides how its code is read.
#[derive(Clone, Copy, Debug, PartialEq, Eq, Structural)]
pub struct EventType {
    pub raw: u16,
}

/// A synchronization marker.
#[derive(Clone, Copy, Debug, PartialEq, Eq, Structural)]
pub struct Syn {
    pub raw: u16,
}

/// The state that a key event reports.
#[derive(Clone, Copy, Debug, PartialEq, Eq, Structural)]
pub enum KeyState {
    Released,
    Pressed,
    /// Key repeat, or a state that has no meaning of its own.
    Other(i32),
}

/// The index of a multitouch slot.
#[derive(Clone, Copy, Debug, PartialEq, Eq, Structural)]
pub struct Slot {
    pub raw: i32,
}

impl Slot {
    /// Creates a slot from its raw index.
    pub fn from_raw(raw: i32) -> (slot: Self)
        ensures
            slot.raw == raw,
    {
        Slot { raw }
    }

    /// Returns the raw index of the slot.
    pub fn raw(self) -> (raw: i32)
        ensures
            raw == self.raw,
    {
        self.raw
    }
}

impl From<u16> for Slot {
    fn from(index: u16) -> (slot: Self) {
        Slot { raw: index as i32 }
    }
}

impl vstd::std_specs::convert::FromSpecImpl<u16> for Slot {
    open spec fn obeys_from_spec() -> bool {
        true
    }

    open spec fn from_spec(index: u16) -> Self {
        Slot { raw: index as i32 }
    }
}

/// The time an event was produced, in seconds and microseconds.
#[derive(Clone, Copy, Debug, PartialEq, Eq, Structural)]
pub struct Timestamp {
    pub sec: i64,
    pub usec: i64,
}

/// An event as it is exchanged with the kernel.
#[derive(Clone, Copy, Debug, PartialEq, Eq, Structural)]
pub struct InputEvent {
    pub time: Timestamp,
    /// The raw event type.
    pub kind: u16,
    /// The raw code within the code space of the event type.
    pub code: u16,
    pub value: i32,
}

/// An event, read according to its type.
#[derive(Clone, Copy, Debug, PartialEq, Eq, Structural)]
pub enum EventKind {
    Syn(Syn),
    Key(Key, KeyState),
    Rel(Rel, i32),
    Abs(Abs, i32),
    Switch(Switch, bool),
    Led(Led, bool),
    Sound(Sound, bool),
}

/// The numeric value of an on/off event.
pub open spec fn switch_value(on: bool) -> i32 {
    if on {
        1
    } else {
        0
    }
}

/// The state that the value of a key event stands for.
pub open spec fn key_state_of(value: i32) -> KeyState {
    if value == 0 {
        KeyState::Released
    } else if value == 1 {
        KeyState::Pressed
    } else {
        KeyState::Other(value)
    }
}

impl InputEvent {
    /// Creates an event with a zero timestamp.
    pub fn new(event_type: EventType, code: u16, value: i32) -> (event: Self)
        ensures
            event == (InputEvent {
                time: Timestamp { sec: 0, usec: 0 },
                kind: event_type.raw,
                code,
                value,
            }),
    {
        InputEvent { time: Timestamp { sec: 0, usec: 0 }, kind: event_type.raw, code, value }
    }

    /// Creates an event in which every field is zero.
    pub fn zeroed() -> (event: Self)
        ensures
            event == (InputEvent {
                time: Timestamp { sec: 0, usec: 0 },
                kind: 0,
                code: 0,
                value: 0,
            }),
    {
        InputEvent { time: Timestamp { sec: 0, usec: 0 }, kind: 0, code: 0, value: 0 }
    }

    /// Creates a synchronization marker.
    pub fn syn(syn: Syn) -> (event: Self)
        ensures
            event == (InputEvent {
                time: Timestamp { sec: 0, usec: 0 },
                kind: EV_SYN,
                code: syn.raw,
                value: 0,
            }),
    {
        InputEvent::new(EventType { raw: EV_SYN }, syn.raw, 0)
    }

    /// Creates an event on a relative axis.
    pub fn rel(rel: Rel, value: i32) -> (event: Self)
        ensures
            event == (InputEvent {
                time: Timestamp { sec: 0, usec: 0 },
                kind: EV_REL,
                code: rel.code(),
                value,
            }),
    {
        InputEvent::new(EventType { raw: EV_REL }, rel.raw(), value)
    }

    /// Creates an event on an absolute axis.
    pub fn abs(abs: Abs, value: i32) -> (event: Self)
        ensures
            event == (InputEvent {
                time: Timestamp { sec: 0, usec: 0 },
                kind: EV_ABS,
                code: abs.code(),
                value,
            }),
    {
        InputEvent::new(EventType { raw: EV_ABS }, abs.raw(), value)
    }

    /// Returns the same event with another timestamp.
    pub fn with_time(self, time: Timestamp) -> (event: Self)
        ensures
            event == (InputEvent { time, ..self }),
    {
        InputEvent { time, kind: self.kind, code: self.code, value: self.value }
    }

    /// Returns the time the event was produced.
    pub fn time(&self) -> (time: Timestamp)
        ensures
            time == self.time,
    {
        self.time
    }

    /// Returns the type of the event.
    pub fn event_type(&self) -> (event_type: EventType)
        ensures
            event_type.raw == self.kind,
    {
        EventType { raw: self.kind }
    }

    /// Returns the raw code of the event.
    pub fn raw_code(&self) -> (code: u16)
        ensures
            code == self.code,
    {
        self.code
    }

    /// Returns the raw value of the event.
    pub fn raw_value(&self) -> (value: i32)
        ensures
            value == self.value,
    {
        self.value
    }

    /// Reads the event according to its type. Returns [`None`] for types that have no reading
    /// here.
    pub fn kind(&self) -> (kind: Option<EventKind>)
        ensures
            match kind {
                Some(EventKind::Syn(syn)) => self.kind == EV_SYN && syn.raw == self.code,
                Some(EventKind::Key(key, state)) => {
                    &&& self.kind == EV_KEY
                    &&& key.code() == self.code
                    &&& state == key_state_of(self.value)
                },
                Some(EventKind::Rel(rel, value)) => {
                    &&& self.kind == EV_REL
                    &&& rel.code() == self.code
                    &&& value == self.value
                },
                Some(EventKind::Abs(abs, value)) => {
                    &&& self.kind == EV_ABS
                    &&& abs.code() == self.code
                    &&& value == self.value
                },
                Some(EventKind::Switch(switch, on)) => {
                    &&& self.kind == EV_SW
                    &&& switch.code() == self.code
                    &&& on == (self.value != 0)
                },
                Some(EventKind::Led(led, on)) => {
                    &&& self.kind == EV_LED
                    &&& led.code() == self.code
                    &&& on == (self.value != 0)
                },
                Some(EventKind::Sound(sound, on)) => {
                    &&& self.kind == EV_SND
                    &&& sound.code() == self.code
                    &&& on == (self.value != 0)
                },
                None => {
                    &&& self.kind != EV_SYN
                    &&& self.kind != EV_KEY
                    &&& self.kind != EV_REL
                    &&& self.kind != EV_ABS
                    &&& self.kind != EV_SW
                    &&& self.kind != EV_LED
                    &&& self.kind != EV_SND
                },
            },
    {
        let on: bool = self.value != 0;
        if self.kind == EV_SYN {
            Some(EventKind::Syn(Syn { raw: self.code }))
        } else if self.kind == EV_KEY {
            let state = if self.value == 0 {
                KeyState::Released
            } else if self.value == 1 {
                KeyState::Pressed
            } else {
                KeyState::Other(self.value)
            };
            Some(EventKind::Key(Key::from_raw(self.code), state))
        } else if self.kind == EV_REL {
            Some(EventKind::Rel(Rel::from_raw(self.code), self.value))
        } else if self.kind == EV_ABS {
            Some(EventKind::Abs(Abs::from_raw(self.code), self.value))
        } else if self.kind == EV_SW {
            Some(EventKind::Switch(Switch::from_raw(self.code), on))
        } else if self.kind == EV_LED {
            Some(EventKind::Led(Led::from_raw(self.code), on))
        } else if self.kind == EV_SND {
            Some(EventKind::Sound(Sound::from_raw(self.code), on))
        } else {
            None
        }
    }
}

/// Whether the event is a `SYN_REPORT`.
pub open spec fn is_report(event: InputEvent) -> bool {
    event.kind == EV_SYN && event.code == SYN_REPORT
}

/// Whether the event is a `SYN_DROPPED`.
pub open spec fn is_dropped(event: InputEvent) -> bool {
    event.kind == EV_SYN && event.code == SYN_DROPPED
}

/// Whether the event ends a batch.
pub open spec fn ends_batch(event: InputEvent) -> bool {
    is_report(event) || is_dropped(event)
}

/// Returns whether the event ends a batch: whether it is a `SYN_REPORT` or a `SYN_DROPPED`.
pub fn report_or_dropped(event: &InputEvent) -> (ends: bool)
    ensures
        ends == ends_batch(*event),
{
    match event.kind() {
        Some(EventKind::Syn(syn)) => syn.raw == SYN_REPORT || syn.raw == SYN_DROPPED,
        _ => false,
    }
}

/// The index of the first event that ends a batch, or the length of `events` if there is none.
pub open spec fn first_end(events: Seq<InputEvent>) -> nat
    decreases events.len(),
{
    if events.len() == 0 {
        0
    } else if ends_batch(events[0]) {
        0
    } else {
        1 + first_end(events.drop_first())
    }
}

/// The first end of a batch is the one position that ends a batch and has no such position before
/// it.
pub proof fn first_end_is_first(events: Seq<InputEvent>)
    ensures
        first_end(events) <= events.len(),
        first_end(events) < events.len() ==> ends_batch(events[first_end(events) as int]),
        forall|i: int| 0 <= i < first_end(events) ==> !ends_batch(#[trigger] events[i]),
    decreases events.len(),
{
    if events.len() > 0 && !ends_batch(events[0]) {
        let rest = events.drop_first();
        first_end_is_first(rest);
        assert forall|i: int| 0 <= i < first_end(events) implies !ends_batch(#[trigger] events[i]) by {
            if i > 0 {
                assert(events[i] == rest[i - 1]);
            }
        }
    }
}

/// A position that ends a batch and has no such position before it is the first end.
pub proof fn first_end_unique(events: Seq<InputEvent>, end: int)
    requires
        0 <= end <= events.len(),
        end < events.len() ==> ends_batch(events[end]),
        forall|i: int| 0 <= i < end ==> !ends_batch(#[trigger] events[i]),
    ensures
        first_end(events) == end,
{
    first_end_is_first(events);
    let first = first_end(events) as int;
    if first < end {
        assert(ends_batch(events[first]));
    }
    if end < first {
        assert(ends_batch(events[end]));
    }
}

/// The numbers of event types, markers and axes are those of the kernel.
pub proof fn numbers_are_those_of_the_kernel()
    ensures
        EV_SYN == 0,
        EV_KEY == 1,
        EV_REL == 2,
        EV_ABS == 3,
        EV_SW == 5,
        EV_LED == 0x11,
        EV_SND == 0x12,
        SYN_REPORT == 0,
        SYN_DROPPED == 3,
        ABS_MT_SLOT == 0x2f,
        ABS_MT_TRACKING_ID == 0x39,
        ABS_MAX == 0x3f,
{
}

/// A batch ends with a `SYN_REPORT` or a `SYN_DROPPED`, whatever their times and values are, and with
/// no other event.
pub proof fn markers_end_batches(event: InputEvent)
    ensures
        is_report(event) <==> event.kind == EV_SYN && event.code == SYN_REPORT,
        is_dropped(event) <==> event.kind == EV_SYN && event.code == SYN_DROPPED,
        ends_batch(event) <==> event.kind == EV_SYN && (event.code == SYN_REPORT || event.code
            == SYN_DROPPED),
        !(is_report(event) && is_dropped(event)),
{
}

/// What follows the first end of a batch does not matter to where it is, and events that end no
/// batch move it back.
pub proof fn first_end_depends_on_what_comes_before(
    before: Seq<InputEvent>,
    end: InputEvent,
    after: Seq<InputEvent>,
)
    requires
        forall|i: int|
            0 <= i < before.len() ==> !((#[trigger] before[i]).kind == EV_SYN && (before[i].code
                == SYN_REPORT || before[i].code == SYN_DROPPED)),
    ensures
        first_end(before) == before.len(),
        end.kind == EV_SYN && (end.code == SYN_REPORT || end.code == SYN_DROPPED) ==> first_end(
            before.push(end) + after,
        ) == before.len(),
{
    assert forall|i: int| 0 <= i < before.len() implies !ends_batch(#[trigger] before[i]) by {}
    first_end_unique(before, before.len() as int);
    if ends_batch(end) {
        let all = before.push(end) + after;
        assert forall|i: int| 0 <= i < before.len() implies !ends_batch(#[trigger] all[i]) by {
            assert(all[i] == before[i]);
        }
        first_end_unique(all, before.len() as int);
    }
}

/// A key is released by the value 0 and pressed by the value 1. All other values are kept as they
/// are.
pub proof fn key_values_have_their_state(value: i32)
    ensures
        key_state_of(value) == KeyState::Released <==> value == 0,
        key_state_of(value) == KeyState::Pressed <==> value == 1,
        value != 0 && value != 1 ==> key_state_of(value) == KeyState::Other(value),
{
}

/// A slot that is made from an index has that index.
pub proof fn slots_keep_their_index(index: u16)
    ensures
        <Slot as vstd::std_specs::convert::FromSpec<u16>>::from_spec(index).raw == index,
{
}

/// Keys, axes, LEDs, sounds and switches are told apart by their raw codes, all of which are kept.
pub proof fn values_have_their_raw_codes(raw: u16)
    ensures
        (Key { raw }).code() == raw,
        (Rel { raw }).code() == raw,
        (Abs { raw }).code() == raw,
        (Led { raw }).code() == raw,
        (Sound { raw }).code() == raw,
        (Switch { raw }).code() == raw,
{
}

} // verus!
