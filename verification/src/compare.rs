//! Comparison of events that were received with events that were expected.
use crate::event::{EventType, InputEvent, EV_SYN};
use vstd::prelude::*;

verus! {

/// Whether `received` is the event `expected`. Times are not compared, nor are the values of
/// synchronization markers.
pub open spec fn same_event(received: InputEvent, expected: InputEvent) -> bool {
    &&& received.kind == expected.kind
    &&& received.code == expected.code
    &&& received.kind == EV_SYN || received.value == expected.value
}

/// How events differ from what was expected.
#[derive(Clone, Copy, Debug, PartialEq, Eq, Structural)]
pub enum Mismatch {
    /// There are more or fewer events.
    Length { actual: usize, expected: usize },
    /// The event at this index is another one.
    Event { index: usize },
}

/// Returns whether `recv` is the event `expected`. Times are not compared, nor are the values of
/// synchronization markers.
pub fn events_eq(recv: InputEvent, expected: InputEvent) -> (equal: bool)
    ensures
        equal == same_event(recv, expected),
{
    if recv.event_type() != expected.event_type() || recv.raw_code() != expected.raw_code() {
        return false;
    }
    if recv.event_type() != (EventType { raw: EV_SYN }) && recv.raw_value()
        != expected.raw_value() {
        return false;
    }
    true
}

/// Checks that `actual` are the events `expected`. Otherwise returns the first difference.
pub fn check_events(actual: &[InputEvent], expected: &[InputEvent]) -> (result: Result<
    (),
    Mismatch,
>)
    ensures
        match result {
            Ok(_) => {
                &&& actual@.len() == expected@.len()
                &&& forall|i: int|
                    0 <= i < actual@.len() ==> same_event(#[trigger] actual@[i], expected@[i])
            },
            Err(Mismatch::Length { actual: found, expected: wanted }) => {
                &&& found == actual@.len()
                &&& wanted == expected@.len()
                &&& found != wanted
            },
            Err(Mismatch::Event { index }) => {
                &&& actual@.len() == expected@.len()
                &&& index < actual@.len()
                &&& !same_event(actual@[index as int], expected@[index as int])
                &&& forall|i: int|
                    0 <= i < index ==> same_event(#[trigger] actual@[i], expected@[i])
            },
        },
{
    if actual.len() != expected.len() {
        return Err(Mismatch::Length { actual: actual.len(), expected: expected.len() });
    }
    let mut index: usize = 0;
    while index < actual.len()
        invariant
            index <= actual@.len() == expected@.len(),
            forall|i: int| 0 <= i < index ==> same_event(#[trigger] actual@[i], expected@[i]),
        decreases actual@.len() - index,
    {
        if !events_eq(actual[index], expected[index]) {
            return Err(Mismatch::Event { index });
        }
        index = index + 1;
    }
    Ok(())
}

/// Events are the same if and only if their types and codes are, and their values unless they are
/// synchronization markers. When they happened does not matter.
pub proof fn sameness_is_of_type_code_and_value(a: InputEvent, b: InputEvent, c: InputEvent)
    ensures
        same_event(a, b) <==> a.kind == b.kind && a.code == b.code && (a.kind == EV_SYN || a.value
            == b.value),
        same_event(a, a),
        same_event(a, b) ==> same_event(b, a),
        same_event(a, b) && same_event(b, c) ==> same_event(a, c),
        same_event(a, InputEvent { time: b.time, ..a }),
{
}

} // verus!
