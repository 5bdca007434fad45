//! The form in which events are exchanged with the kernel.
//!
//! Each event takes 24 bytes: the seconds and the microseconds of its time (8 bytes each), its type
//! and its code (2 bytes each) and its value (4 bytes).
use crate::event::{InputEvent, Timestamp};
use vstd::prelude::*;

verus! {

/// The number of bytes that an event takes.
pub const EVENT_SIZE: usize = 24;

/// The order of the bytes of a number.
#[derive(Clone, Copy, Debug, PartialEq, Eq, Structural)]
pub enum ByteOrder {
    /// The lowest byte comes first.
    Little,
    /// The highest byte comes first.
    Big,
}

/// Byte `index` of `number`, counted from the lowest.
pub open spec fn byte_of(number: u64, index: int) -> u8 {
    ((number >> ((8 * index) as u64)) & 0xff) as u8
}

/// The lowest `len` bytes of `number`.
pub open spec fn number_bytes(number: u64, len: int, order: ByteOrder) -> Seq<u8> {
    Seq::new(
        len as nat,
        |i: int|
            match order {
                ByteOrder::Little => byte_of(number, i),
                ByteOrder::Big => byte_of(number, len - 1 - i),
            },
    )
}

/// The bytes of an event.
pub open spec fn event_bytes(event: InputEvent, order: ByteOrder) -> Seq<u8> {
    number_bytes(event.time.sec as u64, 8, order) + number_bytes(event.time.usec as u64, 8, order)
        + number_bytes(event.kind as u64, 2, order) + number_bytes(event.code as u64, 2, order)
        + number_bytes((event.value as u32) as u64, 4, order)
}

/// The bytes of several events, one after the other.
pub open spec fn all_bytes(events: Seq<InputEvent>, order: ByteOrder) -> Seq<u8>
    decreases events.len(),
{
    if events.len() == 0 {
        Seq::empty()
    } else {
        all_bytes(events.drop_last(), order) + event_bytes(events.last(), order)
    }
}

/// Appends the lowest `len` bytes of `number` to `bytes`.
fn push_number(bytes: &mut Vec<u8>, number: u64, len: usize, order: ByteOrder)
    requires
        len <= 8,
    ensures
        final(bytes)@ == old(bytes)@ + number_bytes(number, len as int, order),
{
    let ghost wanted = number_bytes(number, len as int, order);
    let mut next: usize = 0;
    assert(bytes@ + wanted.take(0) =~= bytes@);
    while next < len
        invariant
            next <= len <= 8,
            wanted == number_bytes(number, len as int, order),
            bytes@ == old(bytes)@ + wanted.take(next as int),
        decreases len - next,
    {
        let index = match order {
            ByteOrder::Little => next,
            ByteOrder::Big => len - 1 - next,
        };
        let byte = ((number >> ((8 * index) as u64)) & 0xff) as u8;
        assert(byte == wanted[next as int]);
        assert(old(bytes)@ + wanted.take(next + 1) =~= (old(bytes)@ + wanted.take(
            next as int,
        )).push(byte));
        bytes.push(byte);
        next = next + 1;
    }
    assert(wanted.take(next as int) =~= wanted);
}

/// Putting a byte above a number keeps the bytes of the number and adds this one.
proof fn byte_on_top(number: u64, byte: u8, shift: u64, low: u64)
    requires
        shift <= 56,
        shift == 0 || number >> shift == 0,
        shift == 0 ==> number == 0,
    ensures
        low + 8 <= shift ==> ((number | ((byte as u64) << shift)) >> low) & 0xff == (number >> low)
            & 0xff,
        (((number | ((byte as u64) << shift)) >> shift) & 0xff) as u8 == byte,
        shift < 56 ==> (number | ((byte as u64) << shift)) >> ((shift + 8) as u64) == 0,
{
    let above = (shift + 8) as u64;
    assert(low + 8 <= shift ==> ((number | ((byte as u64) << shift)) >> low) & 0xff == (number
        >> low) & 0xff) by (bit_vector)
        requires
            shift <= 56,
    ;
    assert((((number | ((byte as u64) << shift)) >> shift) & 0xff) as u8 == byte) by (bit_vector)
        requires
            shift <= 56,
            shift == 0 || number >> shift == 0,
            shift == 0 ==> number == 0,
    ;
    assert(shift < 56 ==> (number | ((byte as u64) << shift)) >> above == 0) by (bit_vector)
        requires
            shift <= 56,
            above == shift + 8,
            shift == 0 || number >> shift == 0,
            shift == 0 ==> number == 0,
    ;
}

/// Reads a number of `len` bytes that starts at `start`.
fn read_number(bytes: &[u8], start: usize, len: usize, order: ByteOrder) -> (number: u64)
    requires
        1 <= len <= 8,
        start + len <= bytes@.len(),
    ensures
        number_bytes(number, len as int, order) == bytes@.subrange(
            start as int,
            start + len,
        ),
        len < 8 ==> number >> ((8 * len) as u64) == 0,
{
    let ghost digits = bytes@.subrange(start as int, start + len);
    let mut number: u64 = 0;
    let mut next: usize = 0;
    while next < len
        invariant
            next <= len <= 8,
            start + len <= bytes.len(),
            digits == bytes@.subrange(start as int, start + len),
            next == 0 ==> number == 0,
            0 < next < 8 ==> number >> ((8 * next) as u64) == 0,
            forall|i: int|
                0 <= i < next ==> #[trigger] byte_of(number, i) == match order {
                    ByteOrder::Little => digits[i],
                    ByteOrder::Big => digits[len - 1 - i],
                },
        decreases len - next,
    {
        let position = match order {
            ByteOrder::Little => start + next,
            ByteOrder::Big => start + (len - 1 - next),
        };
        let byte = bytes[position];
        let shift = (8 * next) as u64;
        let ghost before = number;
        number = number | ((byte as u64) << shift);
        proof {
            byte_on_top(before, byte, shift, 0);
            assert forall|i: int| 0 <= i < next + 1 implies #[trigger] byte_of(number, i)
                == match order {
                ByteOrder::Little => digits[i],
                ByteOrder::Big => digits[len - 1 - i],
            } by {
                byte_on_top(before, byte, shift, (8 * i) as u64);
                if i < next {
                    assert(byte_of(before, i) == byte_of(number, i));
                }
            }
        }
        next = next + 1;
    }
    assert(number_bytes(number, len as int, order) =~= digits);
    number
}

/// Returns the bytes of `events`.
pub fn encode(events: &[InputEvent], order: ByteOrder) -> (bytes: Vec<u8>)
    ensures
        bytes@ == all_bytes(events@, order),
{
    let mut bytes: Vec<u8> = Vec::new();
    let mut next: usize = 0;
    assert(events@.take(0) =~= Seq::<InputEvent>::empty());
    while next < events.len()
        invariant
            next <= events@.len(),
            bytes@ == all_bytes(events@.take(next as int), order),
        decreases events@.len() - next,
    {
        let event = events[next];
        let ghost before = bytes@;
        push_number(&mut bytes, event.time.sec as u64, 8, order);
        push_number(&mut bytes, event.time.usec as u64, 8, order);
        push_number(&mut bytes, event.kind as u64, 2, order);
        push_number(&mut bytes, event.code as u64, 2, order);
        push_number(&mut bytes, (event.value as u32) as u64, 4, order);
        assert(bytes@ =~= before + event_bytes(event, order));
        assert(events@.take(next + 1).drop_last() =~= events@.take(next as int));
        assert(events@.take(next + 1).last() == event);
        next = next + 1;
    }
    assert(events@.take(next as int) =~= events@);
    bytes
}

/// Returns the events whose bytes these are. Bytes at the end that do not make up an event are
/// ignored.
pub fn decode(bytes: &[u8], order: ByteOrder) -> (events: Vec<InputEvent>)
    ensures
        events@.len() == bytes@.len() / EVENT_SIZE as nat,
        all_bytes(events@, order) == bytes@.take(EVENT_SIZE * events@.len()),
{
    let mut events: Vec<InputEvent> = Vec::new();
    let count = bytes.len() / EVENT_SIZE;
    let mut start: usize = 0;
    assert(bytes@.take(0) =~= Seq::<u8>::empty());
    while events.len() < count
        invariant
            events@.len() <= count,
            start == EVENT_SIZE * events@.len(),
            EVENT_SIZE * count <= bytes.len(),
            all_bytes(events@, order) == bytes@.take(start as int),
        decreases count - events@.len(),
    {
        let sec = read_number(bytes, start, 8, order);
        let usec = read_number(bytes, start + 8, 8, order);
        let kind = read_number(bytes, start + 16, 2, order);
        let code = read_number(bytes, start + 18, 2, order);
        let value = read_number(bytes, start + 20, 4, order);
        let event = InputEvent {
            time: Timestamp {
                sec: #[verifier::truncate]
                (sec as i64),
                usec: #[verifier::truncate]
                (usec as i64),
            },
            kind: kind as u16,
            code: code as u16,
            value: #[verifier::truncate]
            ((value as u32) as i32),
        };
        let ghost before = events@;
        events.push(event);
        proof {
            assert((sec as i64) as u64 == sec) by (bit_vector);
            assert((usec as i64) as u64 == usec) by (bit_vector);
            assert((kind as u16) as u64 == kind) by (bit_vector)
                requires
                    kind >> 16 == 0,
            ;
            assert((code as u16) as u64 == code) by (bit_vector)
                requires
                    code >> 16 == 0,
            ;
            assert((((value as u32) as i32) as u32) as u64 == value) by (bit_vector)
                requires
                    value >> 32 == 0,
            ;
            assert(events@.drop_last() =~= before);
            assert(bytes@.take(start + 24) =~= bytes@.take(start as int) + event_bytes(
                event,
                order,
            ));
        }
        start = start + EVENT_SIZE;
    }
    events
}

/// A number that has no higher bytes is determined by its bytes.
proof fn number_is_its_bytes(a: u64, b: u64, len: int, order: ByteOrder)
    requires
        len == 2 || len == 4 || len == 8,
        number_bytes(a, len, order) == number_bytes(b, len, order),
        len < 8 ==> a >> ((8 * len) as u64) == 0 && b >> ((8 * len) as u64) == 0,
    ensures
        a == b,
{
    assert forall|i: int| 0 <= i < len implies #[trigger] byte_of(a, i) == byte_of(b, i) by {
        match order {
            ByteOrder::Little => {
                assert(number_bytes(a, len, order)[i] == byte_of(a, i));
                assert(number_bytes(b, len, order)[i] == byte_of(b, i));
            },
            ByteOrder::Big => {
                let at = len - 1 - i;
                assert(len - 1 - at == i);
                assert(number_bytes(a, len, order)[at] == byte_of(a, len - 1 - at));
                assert(number_bytes(b, len, order)[at] == byte_of(b, len - 1 - at));
            },
        }
    }
    assert(byte_of(a, 0) == byte_of(b, 0));
    assert(byte_of(a, 1) == byte_of(b, 1));
    if len == 2 {
        assert(a == b) by (bit_vector)
            requires
                a >> 16 == 0,
                b >> 16 == 0,
                ((a >> 0) & 0xff) as u8 == ((b >> 0) & 0xff) as u8,
                ((a >> 8) & 0xff) as u8 == ((b >> 8) & 0xff) as u8,
        ;
    } else {
        assert(byte_of(a, 2) == byte_of(b, 2));
        assert(byte_of(a, 3) == byte_of(b, 3));
        if len == 4 {
            assert(a == b) by (bit_vector)
                requires
                    a >> 32 == 0,
                    b >> 32 == 0,
                    ((a >> 0) & 0xff) as u8 == ((b >> 0) & 0xff) as u8,
                    ((a >> 8) & 0xff) as u8 == ((b >> 8) & 0xff) as u8,
                    ((a >> 16) & 0xff) as u8 == ((b >> 16) & 0xff) as u8,
                    ((a >> 24) & 0xff) as u8 == ((b >> 24) & 0xff) as u8,
            ;
        } else {
            assert(byte_of(a, 4) == byte_of(b, 4));
            assert(byte_of(a, 5) == byte_of(b, 5));
            assert(byte_of(a, 6) == byte_of(b, 6));
            assert(byte_of(a, 7) == byte_of(b, 7));
            assert(a == b) by (bit_vector)
                requires
                    ((a >> 0) & 0xff) as u8 == ((b >> 0) & 0xff) as u8,
                    ((a >> 8) & 0xff) as u8 == ((b >> 8) & 0xff) as u8,
                    ((a >> 16) & 0xff) as u8 == ((b >> 16) & 0xff) as u8,
                    ((a >> 24) & 0xff) as u8 == ((b >> 24) & 0xff) as u8,
                    ((a >> 32) & 0xff) as u8 == ((b >> 32) & 0xff) as u8,
                    ((a >> 40) & 0xff) as u8 == ((b >> 40) & 0xff) as u8,
                    ((a >> 48) & 0xff) as u8 == ((b >> 48) & 0xff) as u8,
                    ((a >> 56) & 0xff) as u8 == ((b >> 56) & 0xff) as u8,
            ;
        }
    }
}

/// An event is determined by its bytes.
proof fn event_is_its_bytes(a: InputEvent, b: InputEvent, order: ByteOrder)
    requires
        event_bytes(a, order) == event_bytes(b, order),
    ensures
        a == b,
{
    let x = event_bytes(a, order);
    let y = event_bytes(b, order);
    let (a_sec, b_sec) = (a.time.sec, b.time.sec);
    let (a_usec, b_usec) = (a.time.usec, b.time.usec);
    let (a_kind, b_kind) = (a.kind, b.kind);
    let (a_code, b_code) = (a.code, b.code);
    let (a_value, b_value) = (a.value, b.value);
    assert(x.subrange(0, 8) =~= number_bytes(a_sec as u64, 8, order));
    assert(y.subrange(0, 8) =~= number_bytes(b_sec as u64, 8, order));
    number_is_its_bytes(a_sec as u64, b_sec as u64, 8, order);
    assert(a_sec == b_sec) by (bit_vector)
        requires
            a_sec as u64 == b_sec as u64,
    ;
    assert(x.subrange(8, 16) =~= number_bytes(a_usec as u64, 8, order));
    assert(y.subrange(8, 16) =~= number_bytes(b_usec as u64, 8, order));
    number_is_its_bytes(a_usec as u64, b_usec as u64, 8, order);
    assert(a_usec == b_usec) by (bit_vector)
        requires
            a_usec as u64 == b_usec as u64,
    ;
    assert(forall|n: u16| #[trigger] (n as u64 >> 16) == 0) by (bit_vector);
    assert(x.subrange(16, 18) =~= number_bytes(a_kind as u64, 2, order));
    assert(y.subrange(16, 18) =~= number_bytes(b_kind as u64, 2, order));
    number_is_its_bytes(a_kind as u64, b_kind as u64, 2, order);
    assert(x.subrange(18, 20) =~= number_bytes(a_code as u64, 2, order));
    assert(y.subrange(18, 20) =~= number_bytes(b_code as u64, 2, order));
    number_is_its_bytes(a_code as u64, b_code as u64, 2, order);
    assert(forall|n: u32| #[trigger] (n as u64 >> 32) == 0) by (bit_vector);
    assert(x.subrange(20, 24) =~= number_bytes((a_value as u32) as u64, 4, order));
    assert(y.subrange(20, 24) =~= number_bytes((b_value as u32) as u64, 4, order));
    number_is_its_bytes((a_value as u32) as u64, (b_value as u32) as u64, 4, order);
    assert(a_value == b_value) by (bit_vector)
        requires
            (a_value as u32) as u64 == (b_value as u32) as u64,
    ;
}

/// Every event takes the same number of bytes.
pub proof fn events_have_fixed_size(events: Seq<InputEvent>, order: ByteOrder)
    ensures
        all_bytes(events, order).len() == EVENT_SIZE * events.len(),
    decreases events.len(),
{
    if events.len() > 0 {
        events_have_fixed_size(events.drop_last(), order);
    }
}

/// Events are determined by their bytes: what is read back of events that were written are the
/// same events.
pub proof fn events_are_their_bytes(a: Seq<InputEvent>, b: Seq<InputEvent>, order: ByteOrder)
    requires
        all_bytes(a, order) == all_bytes(b, order),
    ensures
        a == b,
    decreases a.len(),
{
    events_have_fixed_size(a, order);
    events_have_fixed_size(b, order);
    if a.len() > 0 {
        let x = all_bytes(a, order);
        let split = EVENT_SIZE * (a.len() - 1);
        events_have_fixed_size(a.drop_last(), order);
        events_have_fixed_size(b.drop_last(), order);
        assert(x.take(split) =~= all_bytes(a.drop_last(), order));
        assert(x.take(split) =~= all_bytes(b.drop_last(), order));
        events_are_their_bytes(a.drop_last(), b.drop_last(), order);
        assert(x.skip(split) =~= event_bytes(a.last(), order));
        assert(x.skip(split) =~= event_bytes(b.last(), order));
        event_is_its_bytes(a.last(), b.last(), order);
        assert(a =~= a.drop_last().push(a.last()));
        assert(b =~= b.drop_last().push(b.last()));
    } else {
        assert(a =~= b);
    }
}

/// The bytes of events that follow each other are the bytes of the first, followed by the bytes of
/// the others.
pub proof fn events_are_encoded_in_order(
    first: Seq<InputEvent>,
    second: Seq<InputEvent>,
    order: ByteOrder,
)
    ensures
        all_bytes(first + second, order) == all_bytes(first, order) + all_bytes(second, order),
    decreases second.len(),
{
    if second.len() == 0 {
        assert(first + second =~= first);
        assert(all_bytes(first, order) + all_bytes(second, order) =~= all_bytes(first, order));
    } else {
        let all = first + second;
        assert(all.drop_last() =~= first + second.drop_last());
        assert(all.last() == second.last());
        events_are_encoded_in_order(first, second.drop_last(), order);
        assert(all_bytes(all, order) =~= all_bytes(first, order) + all_bytes(second, order));
    }
}

/// The bytes of a single event.
proof fn single_event_bytes(event: InputEvent, order: ByteOrder)
    ensures
        all_bytes(seq![event], order) == event_bytes(event, order),
{
    assert(seq![event].drop_last() =~= Seq::<InputEvent>::empty());
    assert(seq![event].last() == event);
    reveal_with_fuel(all_bytes, 2);
    assert(all_bytes(seq![event], order) =~= event_bytes(event, order));
}

/// Event `index` takes the 24 bytes from `24 * index` on, and they are the bytes that it has when it
/// is alone.
pub proof fn each_event_has_its_place(events: Seq<InputEvent>, index: int, order: ByteOrder)
    requires
        0 <= index < events.len(),
    ensures
        all_bytes(events, order).len() == 24 * events.len(),
        all_bytes(events, order).subrange(24 * index, 24 * index + 24) == all_bytes(
            seq![events[index]],
            order,
        ),
{
    let before = events.take(index);
    let event = seq![events[index]];
    let after = events.skip(index + 1);
    assert(events =~= before + event + after);
    events_are_encoded_in_order(before, event, order);
    events_are_encoded_in_order(before + event, after, order);
    events_have_fixed_size(before, order);
    events_have_fixed_size(event, order);
    events_have_fixed_size(events, order);
    assert(all_bytes(events, order).subrange(24 * index, 24 * index + 24) =~= all_bytes(
        event,
        order,
    ));
}

/// What is read of bytes that follow each other, the first of which make up whole events, are the
/// events of the first bytes, followed by the events of the others.
pub proof fn bytes_are_decoded_in_order(
    first: Seq<InputEvent>,
    second: Seq<InputEvent>,
    all: Seq<InputEvent>,
    first_bytes: Seq<u8>,
    second_bytes: Seq<u8>,
    order: ByteOrder,
)
    requires
        first_bytes.len() % 24 == 0,
        first.len() == first_bytes.len() / 24,
        all_bytes(first, order) == first_bytes.take(24int * first.len()),
        second.len() == second_bytes.len() / 24,
        all_bytes(second, order) == second_bytes.take(24int * second.len()),
        all.len() == (first_bytes + second_bytes).len() / 24,
        all_bytes(all, order) == (first_bytes + second_bytes).take(24int * all.len()),
    ensures
        all == first + second,
{
    events_are_encoded_in_order(first, second, order);
    assert(all.len() == first.len() + second.len());
    assert((first_bytes + second_bytes).take(24int * all.len()) =~= first_bytes.take(24int * first.len())
        + second_bytes.take(24int * second.len()));
    events_are_their_bytes(all, first + second, order);
}

/// A number is its lowest byte and 256 times what is above it.
proof fn lowest_byte(number: u64, shift: u64)
    requires
        shift <= 48,
    ensures
        number >> shift == ((number >> shift) & 0xff) as u8 + 0x100 * (number >> ((shift
            + 8) as u64)),
{
    let above = (shift + 8) as u64;
    assert(number >> shift == ((number >> shift) & 0xff) as u8 + 0x100 * (number >> above))
        by (bit_vector)
        requires
            shift <= 48,
            above == shift + 8,
    ;
}

/// The number that two bytes stand for, the lowest first.
pub open spec fn two_bytes(b0: u8, b1: u8) -> int {
    b0 + 0x100 * b1
}

/// The number that four bytes stand for, the lowest first.
pub open spec fn four_bytes(b0: u8, b1: u8, b2: u8, b3: u8) -> int {
    b0 + 0x100 * b1 + 0x1_0000 * b2 + 0x100_0000 * b3
}

/// A number is what its bytes stand for.
proof fn bytes_stand_for_number(number: u64)
    ensures
        number < 0x1_0000 ==> two_bytes(byte_of(number, 0), byte_of(number, 1)) == number,
        number < 0x1_0000_0000 ==> four_bytes(
            byte_of(number, 0),
            byte_of(number, 1),
            byte_of(number, 2),
            byte_of(number, 3),
        ) == number,
        four_bytes(
            byte_of(number, 0),
            byte_of(number, 1),
            byte_of(number, 2),
            byte_of(number, 3),
        ) + 0x1_0000_0000 * four_bytes(
            byte_of(number, 4),
            byte_of(number, 5),
            byte_of(number, 6),
            byte_of(number, 7),
        ) == number,
{
    lowest_byte(number, 0);
    lowest_byte(number, 8);
    lowest_byte(number, 16);
    lowest_byte(number, 24);
    lowest_byte(number, 32);
    lowest_byte(number, 40);
    lowest_byte(number, 48);
    assert(number >> 0 == number && number >> 56 == ((number >> 56) & 0xff) as u8) by (bit_vector);
}

/// `value`, counted from 0 up to `range` as two's complement does.
pub open spec fn unsigned(value: int, range: int) -> int {
    if value >= 0 {
        value
    } else {
        value + range
    }
}

/// Where each byte of a number stands, when the number starts at `start`.
spec fn placed(bytes: Seq<u8>, start: int, len: int, number: u64, order: ByteOrder) -> bool {
    forall|i: int|
        0 <= i < len ==> #[trigger] byte_of(number, i) == match order {
            ByteOrder::Little => bytes[start + i],
            ByteOrder::Big => bytes[start + len - 1 - i],
        }
}

/// The bytes of a number, as they stand in a longer sequence.
proof fn number_is_placed(bytes: Seq<u8>, start: int, len: int, number: u64, order: ByteOrder)
    requires
        0 <= start,
        0 <= len,
        start + len <= bytes.len(),
        bytes.subrange(start, start + len) == number_bytes(number, len, order),
    ensures
        placed(bytes, start, len, number, order),
{
    let digits = number_bytes(number, len, order);
    assert forall|i: int| 0 <= i < len implies #[trigger] byte_of(number, i) == match order {
        ByteOrder::Little => bytes[start + i],
        ByteOrder::Big => bytes[start + len - 1 - i],
    } by {
        match order {
            ByteOrder::Little => {
                assert(bytes.subrange(start, start + len)[i] == digits[i]);
            },
            ByteOrder::Big => {
                let at = len - 1 - i;
                assert(bytes.subrange(start, start + len)[at] == digits[at]);
                assert(len - 1 - at == i);
            },
        }
    }
}

/// Where the bytes of each field stand.
proof fn places_of_fields(event: InputEvent, order: ByteOrder)
    ensures
        all_bytes(seq![event], order).len() == 24,
        placed(all_bytes(seq![event], order), 0, 8, event.time.sec as u64, order),
        placed(all_bytes(seq![event], order), 8, 8, event.time.usec as u64, order),
        placed(all_bytes(seq![event], order), 16, 2, event.kind as u64, order),
        placed(all_bytes(seq![event], order), 18, 2, event.code as u64, order),
        placed(all_bytes(seq![event], order), 20, 4, (event.value as u32) as u64, order),
{
    single_event_bytes(event, order);
    let bytes = event_bytes(event, order);
    assert(bytes.subrange(0, 8) =~= number_bytes(event.time.sec as u64, 8, order));
    assert(bytes.subrange(8, 16) =~= number_bytes(event.time.usec as u64, 8, order));
    assert(bytes.subrange(16, 18) =~= number_bytes(event.kind as u64, 2, order));
    assert(bytes.subrange(18, 20) =~= number_bytes(event.code as u64, 2, order));
    assert(bytes.subrange(20, 24) =~= number_bytes((event.value as u32) as u64, 4, order));
    number_is_placed(bytes, 0, 8, event.time.sec as u64, order);
    number_is_placed(bytes, 8, 8, event.time.usec as u64, order);
    number_is_placed(bytes, 16, 2, event.kind as u64, order);
    number_is_placed(bytes, 18, 2, event.code as u64, order);
    number_is_placed(bytes, 20, 4, (event.value as u32) as u64, order);
}

/// The bytes of an event are, in this order, its seconds, its microseconds, its type, its code and
/// its value, each in the given byte order and, where negative, in two's complement.
pub proof fn event_bytes_hold_the_fields(event: InputEvent)
    ensures
        ({
            let b = all_bytes(seq![event], ByteOrder::Little);
            &&& b.len() == 24
            &&& four_bytes(b[0], b[1], b[2], b[3]) + 0x1_0000_0000 * four_bytes(
                b[4],
                b[5],
                b[6],
                b[7],
            ) == unsigned(event.time.sec as int, 0x1_0000_0000_0000_0000)
            &&& four_bytes(b[8], b[9], b[10], b[11]) + 0x1_0000_0000 * four_bytes(
                b[12],
                b[13],
                b[14],
                b[15],
            ) == unsigned(event.time.usec as int, 0x1_0000_0000_0000_0000)
            &&& two_bytes(b[16], b[17]) == event.kind
            &&& two_bytes(b[18], b[19]) == event.code
            &&& four_bytes(b[20], b[21], b[22], b[23]) == unsigned(
                event.value as int,
                0x1_0000_0000,
            )
        }),
        ({
            let b = all_bytes(seq![event], ByteOrder::Big);
            &&& b.len() == 24
            &&& four_bytes(b[7], b[6], b[5], b[4]) + 0x1_0000_0000 * four_bytes(
                b[3],
                b[2],
                b[1],
                b[0],
            ) == unsigned(event.time.sec as int, 0x1_0000_0000_0000_0000)
            &&& four_bytes(b[15], b[14], b[13], b[12]) + 0x1_0000_0000 * four_bytes(
                b[11],
                b[10],
                b[9],
                b[8],
            ) == unsigned(event.time.usec as int, 0x1_0000_0000_0000_0000)
            &&& two_bytes(b[17], b[16]) == event.kind
            &&& two_bytes(b[19], b[18]) == event.code
            &&& four_bytes(b[23], b[22], b[21], b[20]) == unsigned(
                event.value as int,
                0x1_0000_0000,
            )
        }),
{
    let (sec, usec, value) = (event.time.sec, event.time.usec, event.value);
    assert(sec >= 0 ==> sec as u64 == sec) by (bit_vector);
    assert(sec < 0 ==> sec as u64 == sec + 0x1_0000_0000_0000_0000) by (bit_vector);
    assert(usec >= 0 ==> usec as u64 == usec) by (bit_vector);
    assert(usec < 0 ==> usec as u64 == usec + 0x1_0000_0000_0000_0000) by (bit_vector);
    assert(value >= 0 ==> value as u32 == value) by (bit_vector);
    assert(value < 0 ==> value as u32 == value + 0x1_0000_0000) by (bit_vector);
    bytes_stand_for_number(sec as u64);
    bytes_stand_for_number(usec as u64);
    bytes_stand_for_number(event.kind as u64);
    bytes_stand_for_number(event.code as u64);
    bytes_stand_for_number((value as u32) as u64);
    places_of_fields(event, ByteOrder::Little);
    places_of_fields(event, ByteOrder::Big);
}

} // verus!
