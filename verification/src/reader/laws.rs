//! What holds of the device state across events and resynchronization.
use crate::bits::{difference_below, CODES};
use crate::event::{
    is_report, switch_value, InputEvent, Timestamp, ABS_MT_SLOT, EV_ABS, EV_KEY, EV_LED, EV_SND,
    EV_SW, EV_SYN, SYN_REPORT,
};
use crate::reader::mt::{find_group, is_group_code, MtGroup};
use crate::reader::state::{
    codes_of, moves, moves_below, moves_tell_each_change, report_at, toggle, toggles,
    toggles_tell_each_change, with_member, StateView, AXES,
};
use vstd::prelude::*;
use vstd::seq_lib::lemma_seq_concat_contains_all_elements;

verus! {

/// It makes no difference whether events are taken in one go or in two.
pub proof fn events_apply_in_order(state: StateView, first: Seq<InputEvent>, second: Seq<InputEvent>)
    ensures
        state.apply_all(first + second) == state.apply_all(first).apply_all(second),
    decreases second.len(),
{
    if second.len() == 0 {
        assert(first + second =~= first);
    } else {
        assert((first + second).drop_last() =~= first + second.drop_last());
        events_apply_in_order(state, first, second.drop_last());
    }
}

/// States that agree on keys, LEDs, sounds, switches and axes still do after the same events.
pub proof fn states_stay_in_agreement(a: StateView, b: StateView, events: Seq<InputEvent>)
    requires
        a.agrees_with(b),
    ensures
        a.apply_all(events).agrees_with(b.apply_all(events)),
    decreases events.len(),
{
    if events.len() > 0 {
        states_stay_in_agreement(a, b, events.drop_last());
    }
}

/// The events of one kind that report which codes below `limit` changed from `a` to `b`.
spec fn toggles_below(
    a: Set<u16>,
    b: Set<u16>,
    kind: u16,
    time: Timestamp,
    limit: nat,
) -> Seq<InputEvent> {
    difference_below(a, b, limit).map_values(|code: u16| toggle(b, kind, time, code))
}

/// Whether events of this kind report membership in one of the state's sets.
spec fn is_toggle_kind(kind: u16) -> bool {
    kind == EV_KEY || kind == EV_LED || kind == EV_SND || kind == EV_SW
}

/// The set that events of this kind are about.
spec fn members(state: StateView, kind: u16) -> Set<u16> {
    if kind == EV_KEY {
        state.keys
    } else if kind == EV_LED {
        state.leds
    } else if kind == EV_SND {
        state.sounds
    } else {
        state.switches
    }
}

/// The state with another set for events of this kind.
spec fn with_members(state: StateView, kind: u16, set: Set<u16>) -> StateView {
    if kind == EV_KEY {
        StateView { keys: set, ..state }
    } else if kind == EV_LED {
        StateView { leds: set, ..state }
    } else if kind == EV_SND {
        StateView { sounds: set, ..state }
    } else {
        StateView { switches: set, ..state }
    }
}

/// `set`, except that codes below `limit` in which `a` and `b` differ are as in `b`.
spec fn corrected(set: Set<u16>, a: Set<u16>, b: Set<u16>, limit: nat) -> Set<u16> {
    Set::new(
        |code: u16|
            if code < limit && a.contains(code) != b.contains(code) {
                b.contains(code)
            } else {
                set.contains(code)
            },
    )
}

/// Taking the toggles corrects the set they are about and nothing else.
proof fn toggles_correct(
    state: StateView,
    a: Set<u16>,
    b: Set<u16>,
    kind: u16,
    time: Timestamp,
    limit: nat,
)
    requires
        is_toggle_kind(kind),
        limit <= CODES,
    ensures
        state.apply_all(toggles_below(a, b, kind, time, limit)) == with_members(
            state,
            kind,
            corrected(members(state, kind), a, b, limit),
        ),
    decreases limit,
{
    let set = members(state, kind);
    if limit == 0 {
        assert(corrected(set, a, b, 0) =~= set);
        assert(toggles_below(a, b, kind, time, limit) =~= Seq::empty());
    } else {
        let below = (limit - 1) as nat;
        let code = below as u16;
        toggles_correct(state, a, b, kind, time, below);
        let events = toggles_below(a, b, kind, time, below);
        if a.contains(code) != b.contains(code) {
            let event = toggle(b, kind, time, code);
            let all = toggles_below(a, b, kind, time, limit);
            assert(all =~= events.push(event));
            assert(all.drop_last() =~= events);
            assert(corrected(set, a, b, limit) =~= with_member(
                corrected(set, a, b, below),
                code,
                b.contains(code),
            ));
        } else {
            assert(corrected(set, a, b, limit) =~= corrected(set, a, b, below));
        }
    }
}

/// `axes`, except that axes below `limit` in which `a` and `b` differ are as in `b`.
spec fn moved(axes: Seq<i32>, a: Seq<i32>, b: Seq<i32>, limit: nat) -> Seq<i32> {
    Seq::new(
        axes.len(),
        |axis: int|
            if axis < limit && a[axis] != b[axis] {
                b[axis]
            } else {
                axes[axis]
            },
    )
}

/// Taking the moves corrects the axes and nothing else.
proof fn moves_correct(state: StateView, a: Seq<i32>, b: Seq<i32>, time: Timestamp, limit: nat)
    requires
        limit <= AXES,
        state.abs.len() == AXES,
    ensures
        state.apply_all(moves_below(a, b, time, limit)) == (StateView {
            abs: moved(state.abs, a, b, limit),
            ..state
        }),
    decreases limit,
{
    if limit == 0 {
        assert(moved(state.abs, a, b, limit) =~= state.abs);
    } else {
        let axis = limit - 1;
        moves_correct(state, a, b, time, axis as nat);
        let events = moves_below(a, b, time, axis as nat);
        if a[axis] != b[axis] {
            let all = moves_below(a, b, time, limit);
            assert(all.drop_last() =~= events);
            assert(moved(state.abs, a, b, limit) =~= moved(state.abs, a, b, axis as nat).update(
                axis,
                b[axis],
            ));
        } else {
            assert(moved(state.abs, a, b, limit) =~= moved(state.abs, a, b, axis as nat));
        }
    }
}

/// The changes from `known` to `current`, taken from the state `start`, correct exactly what
/// differs between the two.
proof fn changes_correct(start: StateView, known: StateView, current: StateView)
    requires
        start.abs.len() == AXES,
    ensures
        start.apply_all(known.resync_events(current)) == (StateView {
            keys: corrected(start.keys, known.keys, current.keys, CODES as nat),
            leds: corrected(start.leds, known.leds, current.leds, CODES as nat),
            sounds: corrected(start.sounds, known.sounds, current.sounds, CODES as nat),
            switches: corrected(start.switches, known.switches, current.switches, CODES as nat),
            abs: moved(start.abs, known.abs, current.abs, AXES as nat),
            ..start
        }),
{
    let time = known.last_event;
    let all = CODES as nat;
    let keys = toggles(known.keys, current.keys, EV_KEY, time);
    let leds = toggles(known.leds, current.leds, EV_LED, time);
    let sounds = toggles(known.sounds, current.sounds, EV_SND, time);
    let switches = toggles(known.switches, current.switches, EV_SW, time);
    let axes = moves(known.abs, current.abs, time);
    toggles_correct(start, known.keys, current.keys, EV_KEY, time, all);
    let s1 = start.apply_all(keys);
    toggles_correct(s1, known.leds, current.leds, EV_LED, time, all);
    let s2 = s1.apply_all(leds);
    toggles_correct(s2, known.sounds, current.sounds, EV_SND, time, all);
    let s3 = s2.apply_all(sounds);
    toggles_correct(s3, known.switches, current.switches, EV_SW, time, all);
    let s4 = s3.apply_all(switches);
    moves_correct(s4, known.abs, current.abs, time, AXES as nat);
    let changes = known.changes(current);
    events_apply_in_order(start, keys, leds);
    events_apply_in_order(start, keys + leds, sounds);
    events_apply_in_order(start, keys + leds + sounds, switches);
    events_apply_in_order(start, keys + leds + sounds + switches, axes);
    assert(changes == keys + leds + sounds + switches + axes);
    if changes.len() > 0 {
        let events = changes.push(report_at(time));
        assert(events.drop_last() =~= changes);
        assert(events.last() == report_at(time));
        assert(start.apply_all(events) == start.apply_all(changes).apply(report_at(time)));
    }
}

/// The events that a resynchronization produces bring whoever has followed the events so far up to
/// date: taken from the state before, they lead to the keys, LEDs, sounds, switches and axes that
/// the device reports, and leave everything else as it was.
pub proof fn resync_events_lead_to_current(known: StateView, current: StateView)
    requires
        known.abs.len() == AXES,
        current.abs.len() == AXES,
    ensures
        known.apply_all(known.resync_events(current)) == (StateView {
            mt: known.mt,
            ..known.resynced(current)
        }),
{
    changes_correct(known, known, current);
    assert(corrected(known.keys, known.keys, current.keys, CODES as nat) =~= current.keys);
    assert(corrected(known.leds, known.leds, current.leds, CODES as nat) =~= current.leds);
    assert(corrected(known.sounds, known.sounds, current.sounds, CODES as nat) =~= current.sounds);
    assert(corrected(known.switches, known.switches, current.switches, CODES as nat)
        =~= current.switches);
    assert(moved(known.abs, known.abs, current.abs, AXES as nat) =~= current.abs);
}

/// A state that has been resynchronized already is not changed by taking the events that the
/// resynchronization produced.
pub proof fn resync_events_keep_resynced_state(known: StateView, current: StateView)
    requires
        known.abs.len() == AXES,
        current.abs.len() == AXES,
    ensures
        known.resynced(current).apply_all(known.resync_events(current)) == known.resynced(current),
{
    let start = known.resynced(current);
    changes_correct(start, known, current);
    assert(corrected(start.keys, known.keys, current.keys, CODES as nat) =~= start.keys);
    assert(corrected(start.leds, known.leds, current.leds, CODES as nat) =~= start.leds);
    assert(corrected(start.sounds, known.sounds, current.sounds, CODES as nat) =~= start.sounds);
    assert(corrected(start.switches, known.switches, current.switches, CODES as nat)
        =~= start.switches);
    assert(moved(start.abs, known.abs, current.abs, AXES as nat) =~= start.abs);
}

/// Sets that are equal have no codes in which they differ.
proof fn no_difference(a: Set<u16>, limit: nat)
    ensures
        difference_below(a, a, limit) == Seq::<u16>::empty(),
    decreases limit,
{
    if limit > 0 {
        no_difference(a, (limit - 1) as nat);
    }
}

/// Axes that are equal have not moved.
proof fn no_moves(a: Seq<i32>, time: Timestamp, limit: nat)
    ensures
        moves_below(a, a, time, limit) == Seq::<InputEvent>::empty(),
    decreases limit,
{
    if limit > 0 {
        no_moves(a, time, (limit - 1) as nat);
    }
}

/// Resynchronizing again while the device is unchanged produces no events and changes nothing.
pub proof fn resync_is_idempotent(known: StateView, current: StateView)
    ensures
        known.resynced(current).resync_events(current) == Seq::<InputEvent>::empty(),
        known.resynced(current).resynced(current) == known.resynced(current),
{
    let time = known.last_event;
    no_difference(current.keys, CODES as nat);
    no_difference(current.leds, CODES as nat);
    no_difference(current.sounds, CODES as nat);
    no_difference(current.switches, CODES as nat);
    no_moves(current.abs, time, AXES as nat);
    assert(known.resynced(current).changes(current) =~= Seq::<InputEvent>::empty());
}

/// The moves are events on axes, at the given time.
proof fn moves_are_axis_events(a: Seq<i32>, b: Seq<i32>, time: Timestamp, limit: nat)
    ensures
        forall|i: int|
            0 <= i < moves_below(a, b, time, limit).len() ==> {
                &&& (#[trigger] moves_below(a, b, time, limit)[i]).kind == EV_ABS
                &&& moves_below(a, b, time, limit)[i].time == time
            },
    decreases limit,
{
    if limit > 0 {
        moves_are_axis_events(a, b, time, (limit - 1) as nat);
        let below = moves_below(a, b, time, (limit - 1) as nat);
        let all = moves_below(a, b, time, limit);
        assert forall|i: int| 0 <= i < all.len() implies {
            &&& (#[trigger] all[i]).kind == EV_ABS
            &&& all[i].time == time
        } by {
            if i < below.len() {
                assert(all[i] == below[i]);
            }
        }
    }
}

/// The events of a resynchronization are either none at all, or a single report: their last event
/// is a `SYN_REPORT`, and no other event is a synchronization marker. All of them carry the time
/// of the last event that was seen before.
pub proof fn resync_events_form_a_report(known: StateView, current: StateView)
    ensures
        known.resync_events(current).len() > 0 ==> is_report(known.resync_events(current).last()),
        forall|i: int|
            0 <= i < known.resync_events(current).len() - 1 ==> (#[trigger] known.resync_events(
                current,
            )[i]).kind != EV_SYN,
        forall|i: int|
            0 <= i < known.resync_events(current).len() ==> (#[trigger] known.resync_events(
                current,
            )[i]).time == known.last_event,
{
    let time = known.last_event;
    let keys = toggles(known.keys, current.keys, EV_KEY, time);
    let leds = toggles(known.leds, current.leds, EV_LED, time);
    let sounds = toggles(known.sounds, current.sounds, EV_SND, time);
    let switches = toggles(known.switches, current.switches, EV_SW, time);
    let axes = moves(known.abs, current.abs, time);
    moves_are_axis_events(known.abs, current.abs, time, AXES as nat);
    let changes = known.changes(current);
    assert(changes == keys + leds + sounds + switches + axes);
    assert forall|i: int| 0 <= i < changes.len() implies {
        &&& (#[trigger] changes[i]).kind != EV_SYN
        &&& changes[i].time == time
    } by {
        let n1 = keys.len() as int;
        let n2 = n1 + leds.len();
        let n3 = n2 + sounds.len();
        let n4 = n3 + switches.len();
        if i < n1 {
            assert(changes[i] == keys[i]);
        } else if i < n2 {
            assert(changes[i] == leds[i - n1]);
        } else if i < n3 {
            assert(changes[i] == sounds[i - n2]);
        } else if i < n4 {
            assert(changes[i] == switches[i - n3]);
        } else {
            assert(changes[i] == axes[i - n4]);
        }
    }
    let events = known.resync_events(current);
    assert forall|i: int| 0 <= i < events.len() - 1 implies (#[trigger] events[i]).kind
        != EV_SYN by {
        assert(events[i] == changes[i]);
    }
    assert forall|i: int| 0 <= i < events.len() implies (#[trigger] events[i]).time == time by {
        if i < changes.len() {
            assert(events[i] == changes[i]);
        }
    }
}

/// Selecting a slot makes it the current slot, also if the device does not have it.
pub proof fn selected_slot_is_current(state: StateView, event: InputEvent)
    requires
        event.kind == EV_ABS,
        event.code == ABS_MT_SLOT,
    ensures
        state.apply(event).mt.active_slot as i32 == event.value,
        state.apply(event).mt.slots == state.mt.slots,
        state.apply(event).mt.groups == state.mt.groups,
{
    let value = event.value;
    assert((value as u32) as i32 == value) by (bit_vector);
}

/// Changing the values of the group at `found` does not change which group is found.
proof fn find_keeps(groups: Seq<MtGroup>, code: u16, at: int, changed: MtGroup)
    requires
        0 <= at < groups.len(),
        changed.code == groups[at].code,
    ensures
        find_group(groups.update(at, changed), code) == find_group(groups, code),
    decreases groups.len(),
{
    let updated = groups.update(at, changed);
    if groups[0].code != code {
        if at == 0 {
            assert(updated.drop_first() =~= groups.drop_first());
        } else {
            assert(updated.drop_first() =~= groups.drop_first().update(at - 1, changed));
            find_keeps(groups.drop_first(), code, at - 1, changed);
        }
    }
}

/// The position at which a code is found has a group for that code.
proof fn found_group_has_code(groups: Seq<MtGroup>, code: u16)
    ensures
        find_group(groups, code) < groups.len() ==> groups[find_group(groups, code) as int].code
            == code,
    decreases groups.len(),
{
    if groups.len() > 0 && groups[0].code != code {
        found_group_has_code(groups.drop_first(), code);
    }
}

/// An event with an `ABS_MT_*` code affects the current slot and no other: it sets the value of its
/// code there, if the device has the code and the slot, and keeps the values of all other codes
/// and slots.
pub proof fn mt_event_affects_current_slot_only(
    state: StateView,
    event: InputEvent,
    slot: i32,
    code: u16,
)
    requires
        event.kind == EV_ABS,
        ABS_MT_SLOT < event.code,
        state.mt.is_complete(),
    ensures
        state.apply(event).mt.value(slot, code) == if code == event.code && slot
            == state.mt.active_slot && state.mt.value(slot, code) is Some {
            Some(event.value)
        } else {
            state.mt.value(slot, code)
        },
        state.apply(event) == (StateView { mt: state.apply(event).mt, ..state }),
        state.apply(event).mt.active_slot == state.mt.active_slot,
        state.apply(event).mt.slots == state.mt.slots,
        state.apply(event).mt.is_complete(),
{
    let mt = state.mt;
    if mt.values(event.code) is Some && mt.active_slot < mt.slots {
        let at = mt.find(event.code) as int;
        let changed = MtGroup {
            code: mt.groups[at].code,
            values: mt.groups[at].values.update(mt.active_slot as int, event.value),
        };
        find_keeps(mt.groups, code, at, changed);
        find_keeps(mt.groups, event.code, at, changed);
        found_group_has_code(mt.groups, code);
        found_group_has_code(mt.groups, event.code);
        assert(mt.groups[at].values.len() == mt.slots);
        if is_group_code(code) && mt.find(code) < mt.groups.len() {
            assert(mt.groups[mt.find(code) as int].values.len() == mt.slots);
        }
    } else if is_group_code(code) && mt.find(code) < mt.groups.len() {
        assert(mt.groups[mt.find(code) as int].values.len() == mt.slots);
    }
}

/// The value of `code` after `events`, when it was `value` before and they refer to one slot.
pub open spec fn last_value(events: Seq<InputEvent>, code: u16, value: i32) -> i32
    decreases events.len(),
{
    if events.len() == 0 {
        value
    } else if events.last().kind == EV_ABS && events.last().code == code {
        events.last().value
    } else {
        last_value(events.drop_last(), code, value)
    }
}

/// As long as no other slot is selected, events affect the current slot and no other: each code has
/// the value of the last event for it there, if the device has the code and the slot and there was
/// such an event, and the values of all other slots are kept.
pub proof fn mt_events_affect_current_slot_only(
    state: StateView,
    events: Seq<InputEvent>,
    slot: i32,
    code: u16,
)
    requires
        forall|i: int|
            0 <= i < events.len() ==> !((#[trigger] events[i]).kind == EV_ABS && events[i].code
                == ABS_MT_SLOT),
        state.mt.is_complete(),
    ensures
        state.apply_all(events).mt.value(slot, code) == match state.mt.value(slot, code) {
            Some(value) => Some(
                if slot == state.mt.active_slot {
                    last_value(events, code, value)
                } else {
                    value
                },
            ),
            None => None,
        },
        state.apply_all(events).mt.active_slot == state.mt.active_slot,
        state.apply_all(events).mt.slots == state.mt.slots,
        state.apply_all(events).mt.is_complete(),
    decreases events.len(),
{
    if events.len() > 0 {
        let before = events.drop_last();
        let event = events.last();
        assert forall|i: int| 0 <= i < before.len() implies !((#[trigger] before[i]).kind == EV_ABS
            && before[i].code == ABS_MT_SLOT) by {
            assert(before[i] == events[i]);
        }
        mt_events_affect_current_slot_only(state, before, slot, code);
        assert(!(events[events.len() - 1].kind == EV_ABS && events[events.len() - 1].code
            == ABS_MT_SLOT));
        if event.kind == EV_ABS && ABS_MT_SLOT < event.code {
            mt_event_affects_current_slot_only(state.apply_all(before), event, slot, code);
        }
    }
}

/// An event changes the one thing that it is about, and nothing else. Keys are pressed by the value
/// 1 and released by the value 0, and keep their state otherwise. LEDs, sounds and switches are
/// off for the value 0 and on otherwise. An axis below `ABS_MT_SLOT` takes the value of the event.
pub proof fn event_changes_what_it_is_about(state: StateView, event: InputEvent)
    requires
        state.abs.len() == AXES,
    ensures
        forall|key: u16| #[trigger]
            state.apply(event).keys.contains(key) == if event.kind == EV_KEY && event.code == key
                && (event.value == 0 || event.value == 1) {
                event.value == 1
            } else {
                state.keys.contains(key)
            },
        forall|led: u16| #[trigger]
            state.apply(event).leds.contains(led) == if event.kind == EV_LED && event.code == led {
                event.value != 0
            } else {
                state.leds.contains(led)
            },
        forall|sound: u16| #[trigger]
            state.apply(event).sounds.contains(sound) == if event.kind == EV_SND && event.code
                == sound {
                event.value != 0
            } else {
                state.sounds.contains(sound)
            },
        forall|switch: u16| #[trigger]
            state.apply(event).switches.contains(switch) == if event.kind == EV_SW && event.code
                == switch {
                event.value != 0
            } else {
                state.switches.contains(switch)
            },
        state.apply(event).abs.len() == AXES,
        forall|axis: int|
            0 <= axis < AXES ==> #[trigger] state.apply(event).abs[axis] == if event.kind == EV_ABS
                && event.code == axis {
                event.value
            } else {
                state.abs[axis]
            },
        !(event.kind == EV_ABS && event.code >= ABS_MT_SLOT) ==> state.apply(event).mt == state.mt,
        state.apply(event).abs_axes == state.abs_axes,
        state.apply(event).last_event == state.last_event,
        AXES == ABS_MT_SLOT,
{
}

/// Several events change a state one after the other, from the first to the last.
pub proof fn events_apply_one_after_the_other(
    state: StateView,
    events: Seq<InputEvent>,
    event: InputEvent,
)
    ensures
        state.apply_all(Seq::empty()) == state,
        state.apply_all(events.push(event)) == state.apply_all(events).apply(event),
        state.apply_all(seq![event] + events) == state.apply(event).apply_all(events),
{
    assert(events.push(event).drop_last() =~= events);
    let first = seq![event];
    assert(first.drop_last() =~= Seq::<InputEvent>::empty());
    assert(first.last() == event);
    reveal_with_fuel(StateView::apply_all, 2);
    events_apply_in_order(state, first, events);
}

/// A resynchronization takes over everything that the device reports, whatever was known before:
/// keys, LEDs, sounds, switches, axes and, if the device has `ABS_MT_SLOT`, the current slot, the
/// number of slots and the value of every code in every slot. It keeps what the device does not
/// report.
pub proof fn resync_takes_over_what_the_device_reports(
    known: StateView,
    current: StateView,
    slot: i32,
    code: u16,
)
    ensures
        known.resynced(current).keys == current.keys,
        known.resynced(current).leds == current.leds,
        known.resynced(current).sounds == current.sounds,
        known.resynced(current).switches == current.switches,
        known.resynced(current).abs == current.abs,
        known.resynced(current).abs_axes == known.abs_axes,
        known.resynced(current).last_event == known.last_event,
        known.abs_axes.contains(ABS_MT_SLOT) ==> {
            let mt = known.resynced(current).mt;
            &&& mt == current.mt
            &&& mt.active_slot == current.mt.active_slot
            &&& mt.slots == current.mt.slots
            &&& mt.value(slot, code) == current.mt.value(slot, code)
            &&& mt.valid_slots() == current.mt.valid_slots()
        },
        !known.abs_axes.contains(ABS_MT_SLOT) ==> known.resynced(current).mt == known.mt,
{
}

/// What was known before a resynchronization leaves no trace on a device that has `ABS_MT_SLOT`: two
/// readers that know of the same axes and the same last event know the same afterwards.
pub proof fn resync_forgets_what_was_known(a: StateView, b: StateView, current: StateView)
    requires
        a.abs_axes == b.abs_axes,
        a.last_event == b.last_event,
        a.abs_axes.contains(ABS_MT_SLOT),
    ensures
        a.resynced(current) == b.resynced(current),
{
}

/// Where events of a kind stand among the events of a resynchronization.
pub open spec fn resync_rank(kind: u16) -> int {
    if kind == EV_KEY {
        0
    } else if kind == EV_LED {
        1
    } else if kind == EV_SND {
        2
    } else if kind == EV_SW {
        3
    } else if kind == EV_ABS {
        4
    } else {
        5
    }
}

/// Which toggles there are.
proof fn toggles_hold(
    a: Set<u16>,
    b: Set<u16>,
    kind: u16,
    time: Timestamp,
    code: u16,
    value: i32,
)
    ensures
        toggles(a, b, kind, time).contains(InputEvent { time, kind, code, value })
            <==> a.contains(code) != b.contains(code) && value == if b.contains(code) {
            1i32
        } else {
            0
        },
{
    toggles_tell_each_change(a, b, kind, time);
    let events = toggles(a, b, kind, time);
    let event = InputEvent { time, kind, code, value };
    if events.contains(event) {
        let i = choose|i: int| 0 <= i < events.len() && events[i] == event;
        assert(codes_of(events)[i] == code);
        assert(codes_of(events).contains(code));
    }
    if a.contains(code) != b.contains(code) && value == switch_value(b.contains(code)) {
        assert(codes_of(events).contains(code));
        let i = choose|i: int| 0 <= i < codes_of(events).len() && codes_of(events)[i] == code;
        assert(events[i].code == code);
        assert(events[i] == event);
    }
}

/// Which moves there are.
proof fn moves_hold(a: Seq<i32>, b: Seq<i32>, time: Timestamp, code: u16, value: i32)
    ensures
        moves(a, b, time).contains(InputEvent { time, kind: EV_ABS, code, value }) <==> code
            < ABS_MT_SLOT && a[code as int] != b[code as int] && value == b[code as int],
{
    moves_tell_each_change(a, b, time);
    let events = moves(a, b, time);
    let event = InputEvent { time, kind: EV_ABS, code, value };
    if events.contains(event) {
        let i = choose|i: int| 0 <= i < events.len() && events[i] == event;
        assert(codes_of(events)[i] == code);
        assert(codes_of(events).contains(code));
    }
    if code < ABS_MT_SLOT && a[code as int] != b[code as int] && value == b[code as int] {
        assert(codes_of(events).contains(code));
        let i = choose|i: int| 0 <= i < codes_of(events).len() && codes_of(events)[i] == code;
        assert(events[i].code == code);
        assert(events[i] == event);
    }
}

/// The kinds, times and order of the events that tell the changes.
proof fn changes_are_in_order(known: StateView, current: StateView)
    ensures
        forall|i: int|
            0 <= i < known.changes(current).len() ==> {
                &&& resync_rank((#[trigger] known.changes(current)[i]).kind) < 5
                &&& known.changes(current)[i].time == known.last_event
            },
        forall|i: int, j: int|
            0 <= i < j < known.changes(current).len() ==> {
                let first = #[trigger] known.changes(current)[i];
                let second = #[trigger] known.changes(current)[j];
                resync_rank(first.kind) < resync_rank(second.kind) || (first.kind == second.kind
                    && first.code < second.code)
            },
{
    let time = known.last_event;
    let keys = toggles(known.keys, current.keys, EV_KEY, time);
    let leds = toggles(known.leds, current.leds, EV_LED, time);
    let sounds = toggles(known.sounds, current.sounds, EV_SND, time);
    let switches = toggles(known.switches, current.switches, EV_SW, time);
    let axes = moves(known.abs, current.abs, time);
    toggles_tell_each_change(known.keys, current.keys, EV_KEY, time);
    toggles_tell_each_change(known.leds, current.leds, EV_LED, time);
    toggles_tell_each_change(known.sounds, current.sounds, EV_SND, time);
    toggles_tell_each_change(known.switches, current.switches, EV_SW, time);
    moves_tell_each_change(known.abs, current.abs, time);
    let changes = known.changes(current);
    let n1 = keys.len() as int;
    let n2 = n1 + leds.len();
    let n3 = n2 + sounds.len();
    let n4 = n3 + switches.len();
    assert(changes == keys + leds + sounds + switches + axes);
    assert forall|i: int| 0 <= i < changes.len() implies (#[trigger] changes[i]) == if i < n1 {
        keys[i]
    } else if i < n2 {
        leds[i - n1]
    } else if i < n3 {
        sounds[i - n2]
    } else if i < n4 {
        switches[i - n3]
    } else {
        axes[i - n4]
    } by {}
    assert forall|i: int, j: int| 0 <= i < j < changes.len() implies {
        let first = #[trigger] changes[i];
        let second = #[trigger] changes[j];
        resync_rank(first.kind) < resync_rank(second.kind) || (first.kind == second.kind
            && first.code < second.code)
    } by {
        if j < n1 {
            assert(codes_of(keys)[i] < codes_of(keys)[j]);
        } else if n1 <= i && j < n2 {
            assert(codes_of(leds)[i - n1] < codes_of(leds)[j - n1]);
        } else if n2 <= i && j < n3 {
            assert(codes_of(sounds)[i - n2] < codes_of(sounds)[j - n2]);
        } else if n3 <= i && j < n4 {
            assert(codes_of(switches)[i - n3] < codes_of(switches)[j - n3]);
        } else if n4 <= i {
            assert(codes_of(axes)[i - n4] < codes_of(axes)[j - n4]);
        }
    }
}

/// The events of a resynchronization tell every difference between what was known and what the
/// device reports, and nothing else: a key, LED, sound or switch that is on or off now and was not
/// before, and an axis that has moved. Each difference is told once. Keys come first, then LEDs,
/// sounds, switches and axes, each in ascending order of their codes. A `SYN_REPORT` follows, if
/// there was anything to tell.
pub proof fn resync_events_tell_each_difference_once(
    known: StateView,
    current: StateView,
    code: u16,
    value: i32,
)
    ensures
        ({
            let events = known.resync_events(current);
            let time = known.last_event;
            let on = value == 1;
            &&& events.contains(InputEvent { time, kind: EV_KEY, code, value }) <==> {
                &&& value == 0 || value == 1
                &&& known.keys.contains(code) == !on
                &&& current.keys.contains(code) == on
            }
            &&& events.contains(InputEvent { time, kind: EV_LED, code, value }) <==> {
                &&& value == 0 || value == 1
                &&& known.leds.contains(code) == !on
                &&& current.leds.contains(code) == on
            }
            &&& events.contains(InputEvent { time, kind: EV_SND, code, value }) <==> {
                &&& value == 0 || value == 1
                &&& known.sounds.contains(code) == !on
                &&& current.sounds.contains(code) == on
            }
            &&& events.contains(InputEvent { time, kind: EV_SW, code, value }) <==> {
                &&& value == 0 || value == 1
                &&& known.switches.contains(code) == !on
                &&& current.switches.contains(code) == on
            }
            &&& events.contains(InputEvent { time, kind: EV_ABS, code, value }) <==> {
                &&& code < ABS_MT_SLOT
                &&& known.abs[code as int] != current.abs[code as int]
                &&& value == current.abs[code as int]
            }
            &&& events.len() != 1
            &&& events.len() > 0 ==> events.last() == (InputEvent {
                time,
                kind: EV_SYN,
                code: SYN_REPORT,
                value: 0,
            })
            &&& forall|i: int|
                0 <= i < events.len() - 1 ==> {
                    &&& resync_rank((#[trigger] events[i]).kind) < 5
                    &&& events[i].time == time
                }
            &&& forall|i: int, j: int|
                0 <= i < j < events.len() - 1 ==> {
                    let first = #[trigger] events[i];
                    let second = #[trigger] events[j];
                    resync_rank(first.kind) < resync_rank(second.kind) || (first.kind == second.kind
                        && first.code < second.code)
                }
        }),
{
    let time = known.last_event;
    let keys = toggles(known.keys, current.keys, EV_KEY, time);
    let leds = toggles(known.leds, current.leds, EV_LED, time);
    let sounds = toggles(known.sounds, current.sounds, EV_SND, time);
    let switches = toggles(known.switches, current.switches, EV_SW, time);
    let axes = moves(known.abs, current.abs, time);
    let changes = known.changes(current);
    let events = known.resync_events(current);
    changes_are_in_order(known, current);
    assert forall|i: int| 0 <= i < changes.len() implies #[trigger] events[i] == changes[i] by {}
    toggles_hold(known.keys, current.keys, EV_KEY, time, code, value);
    toggles_hold(known.leds, current.leds, EV_LED, time, code, value);
    toggles_hold(known.sounds, current.sounds, EV_SND, time, code, value);
    toggles_hold(known.switches, current.switches, EV_SW, time, code, value);
    moves_hold(known.abs, current.abs, time, code, value);
    assert(changes == keys + leds + sounds + switches + axes);
    assert forall|kind: u16|
        kind != EV_SYN implies #[trigger] events.contains(InputEvent { time, kind, code, value })
        == {
        let event = InputEvent { time, kind, code, value };
        keys.contains(event) || leds.contains(event) || sounds.contains(event) || switches.contains(
            event,
        ) || axes.contains(event)
    } by {
        let event = InputEvent { time, kind, code, value };
        lemma_seq_concat_contains_all_elements(keys, leds, event);
        lemma_seq_concat_contains_all_elements(keys + leds, sounds, event);
        lemma_seq_concat_contains_all_elements(keys + leds + sounds, switches, event);
        lemma_seq_concat_contains_all_elements(keys + leds + sounds + switches, axes, event);
        if events.contains(event) {
            let i = choose|i: int| 0 <= i < events.len() && events[i] == event;
            assert(changes[i] == event);
        }
        if changes.contains(event) {
            let i = choose|i: int| 0 <= i < changes.len() && changes[i] == event;
            assert(events[i] == event);
        }
    }
    moves_are_axis_events(known.abs, current.abs, time, AXES as nat);
    assert(events.contains(InputEvent { time, kind: EV_KEY, code, value }) == keys.contains(
        InputEvent { time, kind: EV_KEY, code, value },
    ));
    assert(events.contains(InputEvent { time, kind: EV_LED, code, value }) == leds.contains(
        InputEvent { time, kind: EV_LED, code, value },
    ));
    assert(events.contains(InputEvent { time, kind: EV_SND, code, value }) == sounds.contains(
        InputEvent { time, kind: EV_SND, code, value },
    ));
    assert(events.contains(InputEvent { time, kind: EV_SW, code, value }) == switches.contains(
        InputEvent { time, kind: EV_SW, code, value },
    ));
    assert(events.contains(InputEvent { time, kind: EV_ABS, code, value }) == axes.contains(
        InputEvent { time, kind: EV_ABS, code, value },
    ));
}

} // verus!
