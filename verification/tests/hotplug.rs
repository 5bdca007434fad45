use evdevil::compare::{check_events, events_eq, Mismatch};
use evdevil::error::{first_failure, next_item, Error, ErrorKind};
use evdevil::event::{InputEvent, Rel, Syn, Timestamp, SYN_DROPPED, SYN_REPORT};
use evdevil::hotplug::{enumerate, Enumerate, Step};
use evdevil::key_repeat::KeyRepeat;
use std::collections::VecDeque;

fn error(kind: ErrorKind, source: &'static str) -> Error<&'static str> {
    Error { kind, source }
}

fn take_device(devices: &mut Enumerate<u32, &'static str>) -> u32 {
    match devices.next() {
        Step::Device(device) => device,
        other => panic!("expected a device, got {other:?}"),
    }
}

#[test]
fn present_devices_come_before_hotplugged_ones() {
    let mut devices = match enumerate(Ok("monitor"), || {
        Ok::<_, Error<&'static str>>(VecDeque::from([1u32, 2, 3]))
    }) {
        Ok(devices) => devices,
        Err(error) => panic!("{error:?}"),
    };
    assert_eq!(take_device(&mut devices), 1);
    assert_eq!(take_device(&mut devices), 2);
    assert_eq!(take_device(&mut devices), 3);
    assert!(matches!(devices.next(), Step::Poll));
    assert_eq!(devices.monitor(), Some(&"monitor"));

    let item = devices.polled(Ok::<u32, Error<&'static str>>(4));
    assert!(matches!(item, Some(Ok(4))));
    assert!(matches!(devices.next(), Step::Poll));

    // A device that cannot be opened does not end the enumeration.
    let item = devices.polled(Err::<u32, _>(error(ErrorKind::Other, "no such device")));
    assert!(matches!(
        item,
        Some(Err(Error { kind: ErrorKind::Other, source: "no such device" }))
    ));
    assert!(matches!(devices.next(), Step::Poll));

    // Running out of events does, for good.
    let item = devices.polled(Err::<u32, _>(error(ErrorKind::WouldBlock, "nothing there")));
    assert!(item.is_none());
    assert_eq!(devices.monitor(), None);
    assert!(matches!(devices.next(), Step::Done));
    assert!(matches!(devices.next(), Step::Done));
}

#[test]
fn enumerate_degrades_without_hotplug_support() {
    let unsupported: Result<&'static str, _> = Err(error(ErrorKind::Unsupported, "no netlink"));
    let mut devices = match enumerate(unsupported, || Ok(VecDeque::from([7u32]))) {
        Ok(devices) => devices,
        Err(error) => panic!("{error:?}"),
    };
    assert_eq!(take_device(&mut devices), 7);
    assert!(matches!(devices.next(), Step::Done));
}

#[test]
fn enumerate_returns_other_failures() {
    let denied: Result<&'static str, _> = Err(error(ErrorKind::Other, "denied"));
    let devices: Result<Enumerate<u32, _>, _> =
        enumerate(denied, || panic!("devices should not be looked for"));
    assert!(matches!(devices, Err(Error { kind: ErrorKind::Other, source: "denied" })));

    let devices: Result<Enumerate<u32, _>, _> =
        enumerate(Ok("monitor"), || Err(error(ErrorKind::Unsupported, "no directory")));
    assert!(matches!(
        devices,
        Err(Error { kind: ErrorKind::Unsupported, source: "no directory" })
    ));
}

#[test]
fn only_would_block_ends_an_iteration() {
    let item = next_item(Ok::<u8, Error<&'static str>>(5));
    assert!(matches!(item, Some(Ok(5))));
    let item = next_item(Err::<u8, _>(error(ErrorKind::WouldBlock, "a")));
    assert!(item.is_none());
    let item = next_item(Err::<u8, _>(error(ErrorKind::Unsupported, "b")));
    assert!(matches!(item, Some(Err(Error { kind: ErrorKind::Unsupported, source: "b" }))));
}

#[test]
fn own_failure_comes_before_failure_to_undo() {
    assert_eq!(first_failure(None, Ok::<(), &str>(())), Ok(()));
    assert_eq!(first_failure(None, Err("undo")), Err("undo"));
    assert_eq!(first_failure(Some("own"), Ok(())), Err("own"));
    assert_eq!(first_failure(Some("own"), Err("undo")), Err("own"));
}

#[test]
fn key_repeat_settings() {
    let repeat = KeyRepeat::new(250, 33);
    assert_eq!(repeat.delay(), 250);
    assert_eq!(repeat.period(), 33);
    assert_eq!(repeat, KeyRepeat { delay: 250, period: 33 });
    assert_ne!(repeat, KeyRepeat::new(33, 250));
}

#[test]
fn comparison_ignores_times_and_marker_values() {
    let dial = InputEvent::rel(Rel { raw: 7 }, 1);
    let later = dial.with_time(Timestamp { sec: 5, usec: 6 });
    assert!(events_eq(later, dial));
    assert!(!events_eq(dial, InputEvent::rel(Rel { raw: 7 }, 2)));
    assert!(!events_eq(dial, InputEvent::rel(Rel { raw: 6 }, 1)));

    let report = InputEvent::syn(Syn { raw: SYN_REPORT });
    assert!(events_eq(InputEvent { value: 1, ..report }, report));
    assert!(!events_eq(report, InputEvent::syn(Syn { raw: SYN_DROPPED })));
    assert!(!events_eq(report, InputEvent::rel(Rel { raw: 0 }, 0)));
}

#[test]
fn check_events_finds_the_first_difference() {
    let one = InputEvent::rel(Rel { raw: 7 }, 1);
    let two = InputEvent::rel(Rel { raw: 7 }, 2);
    assert_eq!(check_events(&[], &[]), Ok(()));
    assert_eq!(check_events(&[one, two], &[one, two]), Ok(()));
    assert_eq!(
        check_events(&[one], &[one, two]),
        Err(Mismatch::Length { actual: 1, expected: 2 })
    );
    assert_eq!(
        check_events(&[one, two, two], &[one, one, one]),
        Err(Mismatch::Event { index: 1 })
    );
}
