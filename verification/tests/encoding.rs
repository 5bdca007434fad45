use evdevil::bits::BitSet;
use evdevil::event::{
    BitValue, EventKind, EventType, InputEvent, Key, KeyState, Led, Rel, Slot, Sound, Switch, Syn,
    Timestamp, EV_ABS, EV_KEY, EV_LED, EV_REL, EV_SND, EV_SW, EV_SYN,
};
use evdevil::wire::{decode, encode, ByteOrder, EVENT_SIZE};

fn event(kind: u16, code: u16, value: i32) -> InputEvent {
    InputEvent::new(EventType { raw: kind }, code, value)
}

#[test]
fn event_as_bytes() {
    let event = event(EV_REL, 0x0107, -2).with_time(Timestamp { sec: 0x0102_0304_0506_0708, usec: -1 });
    let little = encode(&[event], ByteOrder::Little);
    assert_eq!(
        little,
        [
            8, 7, 6, 5, 4, 3, 2, 1, 255, 255, 255, 255, 255, 255, 255, 255, 2, 0, 7, 1, 254, 255,
            255, 255
        ]
    );
    let big = encode(&[event], ByteOrder::Big);
    assert_eq!(
        big,
        [
            1, 2, 3, 4, 5, 6, 7, 8, 255, 255, 255, 255, 255, 255, 255, 255, 0, 2, 1, 7, 255, 255,
            255, 254
        ]
    );
    assert_eq!(decode(&little, ByteOrder::Little), vec![event]);
    assert_eq!(decode(&big, ByteOrder::Big), vec![event]);
    assert_ne!(decode(&big, ByteOrder::Little), vec![event]);
}

#[test]
fn events_survive_being_written_and_read() {
    let events = [
        event(EV_KEY, 30, 1).with_time(Timestamp { sec: i64::MIN, usec: i64::MAX }),
        event(0xffff, 0xffff, i32::MIN),
        event(EV_SYN, 0, i32::MAX),
    ];
    for order in [ByteOrder::Little, ByteOrder::Big] {
        let bytes = encode(&events, order);
        assert_eq!(bytes.len(), EVENT_SIZE * events.len());
        assert_eq!(decode(&bytes, order), events);
        assert_eq!(encode(&decode(&bytes, order), order), bytes);
    }
}

#[test]
fn incomplete_events_are_ignored() {
    let mut bytes = encode(&[event(EV_KEY, 30, 1)], ByteOrder::Little);
    bytes.extend([1; 23]);
    assert_eq!(decode(&bytes, ByteOrder::Little), vec![event(EV_KEY, 30, 1)]);
    assert_eq!(decode(&[], ByteOrder::Little), vec![]);
}

#[test]
fn events_are_read_according_to_their_type() {
    assert_eq!(event(EV_SYN, 3, 0).kind(), Some(EventKind::Syn(Syn { raw: 3 })));
    assert_eq!(
        event(EV_KEY, 30, 0).kind(),
        Some(EventKind::Key(Key { raw: 30 }, KeyState::Released))
    );
    assert_eq!(
        event(EV_KEY, 30, 1).kind(),
        Some(EventKind::Key(Key { raw: 30 }, KeyState::Pressed))
    );
    assert_eq!(
        event(EV_KEY, 30, 2).kind(),
        Some(EventKind::Key(Key { raw: 30 }, KeyState::Other(2)))
    );
    assert_eq!(event(EV_REL, 7, -3).kind(), Some(EventKind::Rel(Rel { raw: 7 }, -3)));
    assert!(matches!(event(EV_ABS, 1, 9).kind(), Some(EventKind::Abs(_, 9))));
    assert_eq!(event(EV_SW, 2, 5).kind(), Some(EventKind::Switch(Switch { raw: 2 }, true)));
    assert_eq!(event(EV_LED, 1, 0).kind(), Some(EventKind::Led(Led { raw: 1 }, false)));
    assert_eq!(event(EV_SND, 2, 1).kind(), Some(EventKind::Sound(Sound { raw: 2 }, true)));
    assert_eq!(event(0x15, 2, 1).kind(), None);
}

#[test]
fn slots_are_made_from_indices() {
    assert_eq!(Slot::from(5u16), Slot::from_raw(5));
    assert_eq!(Slot::from_raw(-1).raw(), -1);
}

#[test]
fn sets_of_codes() {
    let mut keys = BitSet::new();
    assert!(!keys.contains(Key { raw: 0xffff }));
    assert!(keys.insert(Key { raw: 0xffff }));
    assert!(!keys.insert(Key { raw: 0xffff }));
    assert!(keys.insert(Key { raw: 64 }));
    assert!(keys.contains(Key { raw: 64 }));
    assert!(!keys.contains(Key { raw: 63 }));
    assert!(!keys.contains(Key { raw: 0 }));

    let copy = keys.clone();
    assert!(keys.remove(Key { raw: 0xffff }));
    assert!(!keys.remove(Key { raw: 0xffff }));
    assert!(!keys.remove(Key { raw: 1000 }));
    assert!(copy.contains(Key { raw: 0xffff }));
    assert!(keys != copy);

    // Sets are compared by their members, however they came to have them.
    let mut small = BitSet::new();
    small.insert(Key { raw: 64 });
    assert!(small == keys);
    keys.remove(Key { raw: 64 });
    assert!(keys == BitSet::new());
}

#[test]
fn differences_are_in_ascending_order() {
    let mut a = BitSet::new();
    let mut b = BitSet::new();
    for raw in [300, 5, 64, 1] {
        a.insert(Key { raw });
    }
    for raw in [64, 700, 2] {
        b.insert(Key { raw });
    }
    let codes: Vec<u16> = a.symmetric_difference(&b).into_iter().map(|key| key.raw()).collect();
    assert_eq!(codes, [1, 2, 5, 300, 700]);
    assert_eq!(b.symmetric_difference(&b), vec![]);
}

#[test]
fn sets_from_words() {
    let leds: BitSet<Led> = BitSet::from_words(vec![0b101, 1 << 63]);
    let mut expected = BitSet::new();
    for raw in [0, 2, 127] {
        expected.insert(Led { raw });
    }
    assert!(leds == expected);
    assert!(BitSet::<Led>::from_words(vec![]) == BitSet::new());
}
