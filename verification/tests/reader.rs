use evdevil::bits::BitSet;
use evdevil::compare::check_events;
use evdevil::event::{
    Abs, EventType, InputEvent, Key, Led, Rel, Slot, Sound, Switch, Syn, Timestamp, ABS_MT_SLOT,
    ABS_MT_TRACKING_ID, EV_ABS, EV_KEY, EV_LED, EV_REL, EV_SND, EV_SW, SYN_DROPPED, SYN_REPORT,
};
use evdevil::reader::mt::{AbsInfo, MtStorage};
use evdevil::reader::state::DeviceState;
use evdevil::reader::{
    keep_draining, EventReader, Progress, Report, Request, BATCH_READ_SIZE, RESYNC_READ_LIMIT,
    RESYNC_READ_SIZE,
};
use std::sync::Arc;

const BTN_TRIGGER_HAPPY1: Key = Key { raw: 0x2c0 };
const REL_DIAL: Rel = Rel { raw: 7 };

/// The number of events that make the buffer of a device overflow.
const OVERFLOW_COUNT: usize = 555;

/// A device, as far as a reader can tell.
struct Device {
    /// The events that can be read.
    buffer: Vec<InputEvent>,
    /// The events that arrive once the buffer has been emptied.
    later: Vec<InputEvent>,
    keys: BitSet<Key>,
    leds: BitSet<Led>,
    sounds: BitSet<Sound>,
    switches: BitSet<Switch>,
    abs: [i32; 47],
    abs_axes: BitSet<Abs>,
    slot_info: AbsInfo,
    slot_values: Vec<Vec<i32>>,
}

impl Device {
    fn new() -> Device {
        Device {
            buffer: Vec::new(),
            later: Vec::new(),
            keys: BitSet::new(),
            leds: BitSet::new(),
            sounds: BitSet::new(),
            switches: BitSet::new(),
            abs: [0; 47],
            abs_axes: BitSet::new(),
            slot_info: AbsInfo { value: 0, minimum: 0, maximum: 0 },
            slot_values: Vec::new(),
        }
    }

    /// A touchpad with three slots that reports tracking IDs and the codes 0x35 and 0x36.
    fn touchpad() -> Device {
        let mut device = Device::new();
        for raw in [0x00, 0x01, ABS_MT_SLOT, 0x35, 0x36, ABS_MT_TRACKING_ID] {
            device.abs_axes.insert(Abs { raw });
        }
        device.slot_info = AbsInfo { value: 1, minimum: 0, maximum: 2 };
        device.slot_values = vec![vec![10, 11, 12], vec![20, 21, 22], vec![5, -1, 0]];
        device
    }

    fn current(&self) -> DeviceState {
        DeviceState::current(
            self.keys.clone(),
            self.leds.clone(),
            self.sounds.clone(),
            self.switches.clone(),
            self.abs,
            self.abs_axes.clone(),
            MtStorage::current(&self.abs_axes, &self.slot_info, &self.slot_values),
            Timestamp { sec: 99, usec: 99 },
        )
    }

    fn reader(&self) -> EventReader<&'static str> {
        EventReader::new("device", self.abs_axes.clone(), at(1), &self.current())
    }

    /// Does what a reader asks for. Returns `false` if that would have to wait.
    fn serve(&mut self, reader: &mut EventReader<&'static str>, request: Request) -> bool {
        match request {
            Request::Read => {
                let count = self.buffer.len().min(BATCH_READ_SIZE);
                let events: Vec<InputEvent> = self.buffer.drain(..count).collect();
                reader.refill(&events);
                count > 0
            }
            Request::Resync => {
                let mut reads = 0;
                while keep_draining(!self.buffer.is_empty(), reads) {
                    let count = self.buffer.len().min(RESYNC_READ_SIZE);
                    self.buffer.drain(..count);
                    reads += 1;
                }
                reader.resync(&self.current());
                self.buffer.append(&mut self.later);
                true
            }
        }
    }

    /// Takes all events that can be taken without waiting.
    fn events(&mut self, reader: &mut EventReader<&'static str>) -> Vec<InputEvent> {
        let mut taken = Vec::new();
        let mut events = reader.events();
        loop {
            match events.next() {
                Progress::Ready(event) => taken.push(event),
                Progress::Blocked(request) => {
                    if !self.serve(events.reader, request) {
                        return taken;
                    }
                }
            }
        }
    }

    /// Takes all reports that can be taken without waiting.
    fn reports(&mut self, reader: &mut EventReader<&'static str>) -> Vec<Vec<InputEvent>> {
        let mut taken = Vec::new();
        let mut reports = reader.reports();
        loop {
            match reports.next() {
                Progress::Ready(report) => taken.push(collect(report)),
                Progress::Blocked(request) => {
                    if !self.serve(reports.0, request) {
                        return taken;
                    }
                }
            }
        }
    }

    /// Takes all reports that can be taken without waiting, and discards them.
    fn update(&mut self, reader: &mut EventReader<&'static str>) {
        loop {
            let request = reader.update();
            if !self.serve(reader, request) {
                return;
            }
        }
    }
}

fn at(sec: i64) -> Timestamp {
    Timestamp { sec, usec: 0 }
}

fn event(kind: u16, code: u16, value: i32) -> InputEvent {
    InputEvent::new(EventType { raw: kind }, code, value)
}

fn key(key: Key, value: i32) -> InputEvent {
    event(EV_KEY, key.raw, value)
}

fn dial(value: i32) -> InputEvent {
    InputEvent::rel(REL_DIAL, value)
}

fn abs(code: u16, value: i32) -> InputEvent {
    InputEvent::abs(Abs { raw: code }, value)
}

fn report() -> InputEvent {
    InputEvent::syn(Syn { raw: SYN_REPORT })
}

fn dropped() -> InputEvent {
    InputEvent::syn(Syn { raw: SYN_DROPPED })
}

fn only_key(key: Key) -> BitSet<Key> {
    let mut keys = BitSet::new();
    keys.insert(key);
    keys
}

fn collect(mut report: Report<'_>) -> Vec<InputEvent> {
    let mut events = Vec::new();
    let len = report.len();
    while let Some(event) = report.next() {
        events.push(event);
    }
    assert_eq!(events.len(), len);
    assert_eq!(report.len(), 0);
    assert_eq!(report.next(), None);
    events
}

fn next_report(
    reader: &mut EventReader<&'static str>,
    device: &mut Device,
) -> Report<'static> {
    loop {
        let request = match reader.next_report() {
            Progress::Ready(report) => return report.to_owned(),
            Progress::Blocked(request) => request,
        };
        assert!(device.serve(reader, request), "no report");
    }
}

#[test]
fn shared_reports() {
    let mut device = Device::new();
    device.buffer.extend([dial(0), report()]);
    device.buffer.extend([dial(1), report()]);
    device.buffer.extend([dial(2), report()]);
    let mut reader = device.reader();

    let queue_before = Arc::as_ptr(reader.queue());
    {
        let taken = next_report(&mut reader, &mut device);
        let report_ptr = Arc::as_ptr(taken.queue());
        let queue_ptr = Arc::as_ptr(reader.queue());
        assert_eq!(queue_ptr, queue_before, "queue should not be cloned");
        assert_eq!(
            report_ptr, queue_ptr,
            "queue should not be cloned for a single report"
        );
        assert_eq!(check_events(&collect(taken), &[dial(0), report()]), Ok(()));
    }

    {
        let taken = next_report(&mut reader, &mut device);
        let report_ptr = Arc::as_ptr(taken.queue());
        let queue_ptr = Arc::as_ptr(reader.queue());
        assert_eq!(
            report_ptr, queue_ptr,
            "queue should not be cloned for the second report"
        );

        let taken2 = next_report(&mut reader, &mut device);
        let report2_ptr = Arc::as_ptr(taken2.queue());
        let queue_ptr = Arc::as_ptr(reader.queue());

        // Multiple reports existing at once will share data as long as both were already in the
        // queue when the first one was created.
        assert_eq!(
            report_ptr, report2_ptr,
            "2 reports should be able to share the queue"
        );
        assert_eq!(
            report2_ptr, queue_ptr,
            "reader queue should not be reallocated"
        );

        assert_eq!(check_events(&collect(taken), &[dial(1), report()]), Ok(()));
        assert_eq!(check_events(&collect(taken2), &[dial(2), report()]), Ok(()));
    }
}

/// A reader knows the state of the device from the start, and makes up events for whoever consumes
/// its events.
#[test]
fn test_reader_init_sync() {
    let mut device = Device::new();
    device.keys.insert(BTN_TRIGGER_HAPPY1);

    let mut reader = device.reader();
    let events = device.events(&mut reader);
    assert_eq!(
        check_events(&events, &[key(BTN_TRIGGER_HAPPY1, 1), report()]),
        Ok(())
    );
}

/// A reader synchronizes again when events are dropped.
#[test]
fn test_overflow_resync() {
    let mut device = Device::new();
    // Start out with the key pressed.
    device.keys.insert(BTN_TRIGGER_HAPPY1);
    let mut reader = device.reader();
    assert!(device.keys == only_key(BTN_TRIGGER_HAPPY1));

    // Discard the initial events.
    device.update(&mut reader);

    // Release the key without overflowing.
    device.keys.remove(BTN_TRIGGER_HAPPY1);
    device.buffer.extend([
        key(BTN_TRIGGER_HAPPY1, 0).with_time(at(2)),
        report().with_time(at(2)),
    ]);
    // Update via the iterator.
    let events = device.events(&mut reader);
    assert_eq!(
        check_events(&events, &[key(BTN_TRIGGER_HAPPY1, 0), report()]),
        Ok(())
    );
    assert!(device.keys == BitSet::new());
    assert!(*reader.key_state() == BitSet::new());

    // Press the key without overflowing.
    device.keys.insert(BTN_TRIGGER_HAPPY1);
    device.buffer.extend([
        key(BTN_TRIGGER_HAPPY1, 1).with_time(at(3)),
        report().with_time(at(3)),
    ]);
    // Update via `update`.
    device.update(&mut reader);
    assert!(device.keys == only_key(BTN_TRIGGER_HAPPY1));
    assert!(*reader.key_state() == only_key(BTN_TRIGGER_HAPPY1));

    // Overflow the buffer and release the key. The rest of what the device was reporting, and one
    // more report, arrive after that.
    device.buffer.push(dropped().with_time(at(4)));
    device.buffer.extend(vec![dial(1).with_time(at(4)); OVERFLOW_COUNT]);
    device.keys.remove(BTN_TRIGGER_HAPPY1);
    device.later.extend([dial(1).with_time(at(5)), report().with_time(at(5))]);
    device.later.extend([dial(1).with_time(at(6)), report().with_time(at(6))]);

    // The key is released now:
    assert!(device.keys == BitSet::new());
    // But for the reader, it should still be pressed:
    assert!(*reader.key_state() == only_key(BTN_TRIGGER_HAPPY1));

    // Now use the reader to pull events until we see the key press.
    let mut events = device.events(&mut reader);
    events.retain(|event| event.event_type() != EventType { raw: EV_REL });
    assert_eq!(
        check_events(&events, &[key(BTN_TRIGGER_HAPPY1, 0), report(), report()]),
        Ok(())
    );

    // All events should have non-zero timestamps that monotonically increase
    for window in events.windows(2) {
        let [a, b] = window else { panic!() };
        assert_ne!(a.time(), at(0));
        assert_ne!(b.time(), at(0));
        assert!((a.time().sec, a.time().usec) <= (b.time().sec, b.time().usec));
    }

    // Reader key state should now be up-to-date
    assert!(*reader.key_state() == BitSet::new());
}

#[test]
fn reports_keep_their_events_while_the_reader_goes_on() {
    let mut device = Device::new();
    let mut reader = device.reader();
    device.buffer.extend([dial(0), report(), dial(1)]);
    let first = next_report(&mut reader, &mut device);
    let shared = Arc::as_ptr(reader.queue());

    // Reading more while there is a report gives the reader a queue of its own.
    device.buffer.extend([report(), dial(2), report()]);
    let second = next_report(&mut reader, &mut device);
    assert_ne!(Arc::as_ptr(reader.queue()), shared);
    assert_eq!(Arc::as_ptr(first.queue()), shared);
    assert_eq!(first.queue().len(), 3);
    assert_eq!(reader.queue().len(), 4);

    let third = next_report(&mut reader, &mut device);
    assert_eq!(collect(first), [dial(0), report()]);
    assert_eq!(collect(second), [dial(1), report()]);
    assert_eq!(collect(third), [dial(2), report()]);
}

#[test]
fn events_and_reports_lead_to_the_same_state() {
    let events = [
        key(Key { raw: 30 }, 1),
        event(EV_LED, 1, 1),
        report(),
        abs(0, 5),
        event(EV_SW, 2, 1),
        event(EV_SND, 1, 1),
        report(),
        key(Key { raw: 30 }, 0),
        abs(0, 7),
        report(),
    ];
    let mut device = Device::new();
    let mut by_event = device.reader();
    device.buffer.extend(events);
    assert_eq!(device.events(&mut by_event), events);
    let mut by_report = device.reader();
    device.buffer.extend(events);
    assert_eq!(
        device.reports(&mut by_report),
        [&events[..3], &events[3..7], &events[7..]]
    );
    let mut by_update = device.reader();
    device.buffer.extend(events);
    device.update(&mut by_update);
    for reader in [by_event, by_report, by_update] {
        assert!(*reader.key_state() == BitSet::new());
        assert!(reader.led_state().contains(Led { raw: 1 }));
        assert!(reader.switch_state().contains(Switch { raw: 2 }));
        assert!(reader.sound_state().contains(Sound { raw: 1 }));
        assert_eq!(reader.abs_state(Abs { raw: 0 }), 7);
        assert_eq!(reader.abs_state(Abs { raw: 46 }), 0);
    }
}

#[test]
fn consumers_know_what_the_reader_knows() {
    let mut device = Device::new();
    device.keys.insert(Key { raw: 30 });
    device.abs[5] = 5;
    let mut reader = device.reader();
    let mut consumer = DeviceState::new(BitSet::new(), at(0));

    device.leds.insert(Led { raw: 2 });
    device.buffer.extend([event(EV_LED, 2, 1), abs(6, 1), report(), abs(6, 9)]);
    for event in device.events(&mut reader) {
        consumer.update_state(event);
    }
    assert!(*consumer.keys() == only_key(Key { raw: 30 }));
    assert!(consumer.leds().contains(Led { raw: 2 }));
    assert_eq!(consumer.abs(Abs { raw: 5 }), 5);
    assert_eq!(consumer.abs(Abs { raw: 6 }), reader.abs_state(Abs { raw: 6 }));

    device.keys.remove(Key { raw: 30 });
    device.switches.insert(Switch { raw: 1 });
    device.abs[6] = -1;
    device.buffer.extend([dropped()]);
    for event in device.events(&mut reader) {
        consumer.update_state(event);
    }
    assert!(*consumer.keys() == BitSet::new());
    assert!(consumer.switches().contains(Switch { raw: 1 }));
    assert!(*consumer.leds() == device.leds);
    assert!(*consumer.sounds() == device.sounds);
    for raw in 0..47 {
        assert_eq!(consumer.abs(Abs { raw }), device.abs[raw as usize]);
        assert_eq!(reader.abs_state(Abs { raw }), device.abs[raw as usize]);
    }
}

#[test]
fn single_events_are_removed_from_their_report() {
    let mut device = Device::new();
    let mut reader = device.reader();
    device.buffer.extend([dial(1), dial(2), report(), dial(3), report()]);
    assert!(matches!(reader.next_report(), Progress::Blocked(Request::Read)));
    device.serve(&mut reader, Request::Read);
    assert_eq!(reader.waiting(), 5);
    assert!(matches!(reader.events().next(), Progress::Ready(event) if event == dial(1)));
    assert_eq!(reader.waiting(), 4);
    assert_eq!(collect(next_report(&mut reader, &mut device)), [dial(2), report()]);
    assert_eq!(collect(next_report(&mut reader, &mut device)), [dial(3), report()]);
}

#[test]
fn incomplete_reports_are_not_passed_on() {
    let mut device = Device::new();
    let mut reader = device.reader();
    device.buffer.extend([key(Key { raw: 30 }, 1), dial(1)]);
    assert_eq!(device.events(&mut reader), []);
    assert!(!reader.key_state().contains(Key { raw: 30 }));
    device.buffer.extend([report()]);
    assert_eq!(device.events(&mut reader), [key(Key { raw: 30 }, 1), dial(1), report()]);
    assert!(reader.key_state().contains(Key { raw: 30 }));
}

#[test]
fn reads_can_be_split_anywhere() {
    let events = [dial(1), report(), dial(2), dial(3), report(), report(), dial(4), report()];
    for lost in [false, true] {
        for size in 1..=events.len() {
            let mut device = Device::new();
            let mut reader = device.reader();
            if lost {
                device.buffer.extend([dropped()]);
                assert_eq!(device.events(&mut reader), []);
            }
            let mut taken = Vec::new();
            for chunk in events.chunks(size) {
                device.buffer.extend(chunk);
                taken.extend(device.events(&mut reader));
            }
            // After a loss, the first report is discarded.
            assert_eq!(taken, events[if lost { 2 } else { 0 }..]);
        }
    }
}

#[test]
fn loss_behind_a_complete_report_is_noticed() {
    let mut device = Device::new();
    let mut reader = device.reader();
    device.buffer.extend([dial(1), report(), dial(2), dropped().with_time(at(8)), dial(3)]);
    assert_eq!(collect(next_report(&mut reader, &mut device)), [dial(1), report()]);
    device.keys.insert(Key { raw: 30 });
    assert!(matches!(reader.next_report(), Progress::Blocked(Request::Resync)));
    reader.resync(&device.current());
    assert_eq!(
        collect(next_report(&mut reader, &mut device)),
        [key(Key { raw: 30 }, 1).with_time(at(8)), report().with_time(at(8))]
    );
}

#[test]
fn events_are_discarded_until_a_report_is_complete() {
    let mut device = Device::new();
    let mut reader = device.reader();
    device.buffer.extend([dropped()]);
    device.later.extend([dial(1), dial(2)]);
    assert_eq!(device.events(&mut reader), []);
    assert!(reader.discards_events());
    device.buffer.extend([dial(3), report().with_time(at(7)), dial(4), report()]);
    assert_eq!(device.events(&mut reader), [dial(4), report()]);
    assert!(!reader.discards_events());
}

#[test]
fn loss_while_discarding_starts_over() {
    let mut device = Device::new();
    let mut reader = device.reader();
    device.buffer.extend([dropped()]);
    device.later.extend([dial(1), dropped()]);
    assert_eq!(device.events(&mut reader), []);
    device.buffer.extend([dial(2), report(), dial(3), report()]);
    assert_eq!(device.events(&mut reader), [dial(3), report()]);
}

#[test]
fn differences_are_told_in_order() {
    let mut device = Device::new();
    device.keys.insert(Key { raw: 40 });
    device.abs[3] = -4;
    let mut reader = device.reader();
    assert_eq!(
        device.events(&mut reader),
        [
            key(Key { raw: 40 }, 1).with_time(at(1)),
            abs(3, -4).with_time(at(1)),
            report().with_time(at(1)),
        ]
    );

    device.keys.remove(Key { raw: 40 });
    device.keys.insert(Key { raw: 700 });
    device.keys.insert(Key { raw: 2 });
    device.leds.insert(Led { raw: 1 });
    device.sounds.insert(Sound { raw: 2 });
    device.switches.insert(Switch { raw: 3 });
    device.abs[0] = 6;
    device.abs[46] = 7;
    device.buffer.extend([dropped().with_time(at(9))]);
    let expected = [
        key(Key { raw: 2 }, 1),
        key(Key { raw: 40 }, 0),
        key(Key { raw: 700 }, 1),
        event(EV_LED, 1, 1),
        event(EV_SND, 2, 1),
        event(EV_SW, 3, 1),
        abs(0, 6),
        abs(46, 7),
        report(),
    ];
    let expected: Vec<InputEvent> = expected.iter().map(|event| event.with_time(at(9))).collect();
    assert_eq!(device.events(&mut reader), expected);
    assert!(*reader.key_state() == device.keys);
    assert_eq!(reader.abs_state(Abs { raw: 46 }), 7);

    // Nothing has changed since, so that there is nothing to tell.
    reader.resync(&device.current());
    assert_eq!(device.events(&mut reader), []);
}

#[test]
fn repeated_keys_stay_as_they_are() {
    let mut device = Device::new();
    let mut reader = device.reader();
    device.buffer.extend([key(Key { raw: 30 }, 1), key(Key { raw: 30 }, 2), report()]);
    device.buffer.extend([key(Key { raw: 31 }, 2), report()]);
    device.update(&mut reader);
    assert!(*reader.key_state() == only_key(Key { raw: 30 }));
}

#[test]
fn multitouch_events_affect_the_current_slot() {
    let mut device = Device::touchpad();
    let mut reader = device.reader();
    // There are no events for the multitouch state.
    assert_eq!(device.events(&mut reader), []);
    assert_eq!(reader.current_slot(), Slot::from_raw(1));
    assert_eq!(reader.valid_slots(), [Slot::from_raw(0), Slot::from_raw(2)]);
    assert_eq!(reader.slot_state(0u16, Abs { raw: 0x35 }), Some(10));
    assert_eq!(reader.slot_state(2u16, Abs { raw: 0x36 }), Some(22));

    device.buffer.extend([
        abs(ABS_MT_TRACKING_ID, 6),
        abs(0x35, 100),
        abs(ABS_MT_SLOT, 2),
        abs(ABS_MT_TRACKING_ID, -1),
        report(),
    ]);
    device.update(&mut reader);
    assert_eq!(reader.current_slot(), Slot::from_raw(2));
    assert_eq!(reader.valid_slots(), [Slot::from_raw(0), Slot::from_raw(1)]);
    assert_eq!(reader.slot_state(1u16, Abs { raw: 0x35 }), Some(100));
    assert_eq!(reader.slot_state(0u16, Abs { raw: 0x35 }), Some(10));
    assert_eq!(reader.slot_state(2u16, Abs { raw: 0x35 }), Some(12));
    assert_eq!(reader.slot_state(1u16, Abs { raw: 0x36 }), Some(21));

    // A slot that the device does not have can be selected, but has no values.
    device.buffer.extend([abs(ABS_MT_SLOT, -3), abs(0x35, 1), report()]);
    device.update(&mut reader);
    assert_eq!(reader.current_slot(), Slot::from_raw(-3));
    for slot in 0..3u16 {
        assert_ne!(reader.slot_state(slot, Abs { raw: 0x35 }), Some(1));
    }
}

#[test]
fn slots_and_codes_that_do_not_exist_have_no_value() {
    let reader = Device::touchpad().reader();
    assert_eq!(reader.slot_state(3u16, Abs { raw: 0x35 }), None);
    assert_eq!(reader.slot_state(Slot::from_raw(-1), Abs { raw: 0x35 }), None);
    assert_eq!(reader.slot_state(Slot::from_raw(1), Abs { raw: 0x35 }), Some(11));
    assert_eq!(reader.slot_state(0u16, Abs { raw: 0x30 }), None);
    assert_eq!(reader.slot_state(0u16, Abs { raw: 0x40 }), None);
    assert_eq!(reader.slot_value(Slot::from_raw(0), Abs { raw: 0 }), None);
}

#[test]
fn slots_are_valid_unless_their_tracking_id_is_negative() {
    let mut device = Device::touchpad();
    device.slot_values[2] = vec![-2, 0, i32::MIN];
    let reader = device.reader();
    assert_eq!(reader.valid_slots(), [Slot::from_raw(1)]);
}

#[test]
fn multitouch_needs_slots_and_tracking_ids() {
    let mut device = Device::touchpad();
    device.abs_axes.remove(Abs { raw: ABS_MT_TRACKING_ID });
    let reader = device.reader();
    assert_eq!(reader.valid_slots(), []);
    assert_eq!(reader.slot_state(0u16, Abs { raw: 0x35 }), None);
    assert_eq!(reader.current_slot(), Slot::from_raw(0));
    assert_eq!(reader.state().mt_storage().codes(), 0);
}

#[test]
fn number_of_slots() {
    let info = |maximum| AbsInfo { value: 0, minimum: 0, maximum };
    assert_eq!(MtStorage::slot_count(&info(-1)), 0);
    assert_eq!(MtStorage::slot_count(&info(0)), 1);
    assert_eq!(MtStorage::slot_count(&info(59)), 60);
    assert_eq!(MtStorage::slot_count(&info(60)), 60);
    assert_eq!(MtStorage::slot_count(&info(i32::MAX)), 60);
}

#[test]
fn multitouch_storage() {
    let device = Device::touchpad();
    assert!(MtStorage::supported(&device.abs_axes));
    assert_eq!(
        MtStorage::codes_to_fetch(&device.abs_axes),
        [Abs { raw: 0x35 }, Abs { raw: 0x36 }, Abs { raw: ABS_MT_TRACKING_ID }]
    );
    let info = AbsInfo { value: -5, ..device.slot_info };
    let storage = MtStorage::current(&device.abs_axes, &info, &device.slot_values);
    assert!(*device.current().abs_axes() == device.abs_axes);
    assert_eq!(device.current().last_event(), Timestamp { sec: 99, usec: 99 });
    assert_eq!(storage.slots(), 3);
    assert_eq!(storage.codes(), 3);
    assert_eq!(storage.active_slot(), 0);
    assert_eq!(storage.group(1), (Abs { raw: 0x36 }, &[20, 21, 22][..]));
    assert_eq!(storage.group_for_code(Abs { raw: 0x35 }), Some(&[10, 11, 12][..]));
    assert_eq!(storage.group_for_code(Abs { raw: ABS_MT_SLOT }), None);
}

#[test]
fn upper_end_of_the_axes_is_not_fetched() {
    let mut axes = BitSet::new();
    for raw in [0x2e, 0x2f, 0x30, 0x3e, 0x3f, 0x40] {
        axes.insert(Abs { raw });
    }
    assert_eq!(
        MtStorage::codes_to_fetch(&axes),
        [Abs { raw: 0x30 }, Abs { raw: 0x3e }]
    );
}

#[test]
fn resync_takes_over_multitouch_state() {
    let mut device = Device::touchpad();
    let mut reader = device.reader();
    device.slot_info.value = 2;
    device.slot_values[0] = vec![1, 2, 3];
    device.buffer.extend([dropped()]);
    assert_eq!(device.events(&mut reader), []);
    assert_eq!(reader.current_slot(), Slot::from_raw(2));
    assert_eq!(reader.slot_state(1u16, Abs { raw: 0x35 }), Some(2));
}

#[test]
fn owning_iterator_gives_the_reader_back() {
    let mut device = Device::new();
    device.keys.insert(Key { raw: 30 });
    let mut events = device.reader().into_events();
    assert!(matches!(
        events.next(),
        Progress::Ready(event) if event == key(Key { raw: 30 }, 1).with_time(at(1))
    ));
    assert!(matches!(
        events.next(),
        Progress::Ready(event) if event == report().with_time(at(1))
    ));
    assert!(matches!(events.next(), Progress::Blocked(Request::Read)));
    let reader = events.into_reader();
    assert_eq!(reader.evdev(), &"device");
    assert!(*reader.key_state() == only_key(Key { raw: 30 }));
    assert_eq!(reader.into_evdev(), "device");
}

#[test]
fn draining_is_limited() {
    assert!(keep_draining(true, 0));
    assert!(keep_draining(true, RESYNC_READ_LIMIT - 1));
    assert!(!keep_draining(true, RESYNC_READ_LIMIT));
    assert!(!keep_draining(false, 0));
}

#[test]
fn events_of_other_types_change_nothing() {
    let mut device = Device::new();
    let mut reader = device.reader();
    device.buffer.extend([event(EV_ABS, 0x50, 1), event(0x15, 1, 1), dial(3), report()]);
    device.update(&mut reader);
    assert_eq!(device.current().keys().symmetric_difference(reader.key_state()), []);
    reader.resync(&device.current());
    assert_eq!(device.events(&mut reader), []);
}
