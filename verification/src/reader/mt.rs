//! The multitouch slots of a device.
use crate::bits::{push_keeps_ascending, BitSet};
use crate::event::{Abs, BitValue, Slot, ABS_MAX, ABS_MT_SLOT, ABS_MT_TRACKING_ID};
use vstd::prelude::*;
use vstd::slice::slice_subrange;

verus! {

/// The largest number of slots that is tracked.
pub const MAX_MT_SLOTS: i32 = 60;

/// What the kernel reports about an absolute axis.
#[derive(Clone, Copy, Debug, PartialEq, Eq, Structural)]
pub struct AbsInfo {
    pub value: i32,
    pub minimum: i32,
    pub maximum: i32,
}

/// The values that all slots have for one `ABS_MT_*` code.
#[verifier::ext_equal]
pub struct MtGroup {
    pub code: u16,
    /// One value per slot.
    pub values: Seq<i32>,
}

/// The multitouch state of a device.
#[verifier::ext_equal]
pub struct MtView {
    /// The number of slots.
    pub slots: nat,
    /// One group per supported code.
    pub groups: Seq<MtGroup>,
    /// The slot that events refer to. It need not be one of the device's slots.
    pub active_slot: u32,
}

impl MtView {
    /// The state of a device without multitouch support.
    pub open spec fn empty() -> MtView {
        MtView { slots: 0, groups: Seq::empty(), active_slot: 0 }
    }

    /// Whether every group has one value for each slot.
    pub open spec fn is_complete(self) -> bool {
        forall|g: int|
            0 <= g < self.groups.len() ==> (#[trigger] self.groups[g]).values.len() == self.slots
    }

    /// The position of the first group for `code`, or the number of groups if there is none.
    pub open spec fn find(self, code: u16) -> nat {
        find_group(self.groups, code)
    }

    /// The values of `code`, one per slot, if the device has that code.
    pub open spec fn values(self, code: u16) -> Option<Seq<i32>> {
        if is_group_code(code) && self.find(code) < self.groups.len() {
            Some(self.groups[self.find(code) as int].values)
        } else {
            None
        }
    }

    /// The value of `code` in the slot with the raw index `slot`, if the device has both.
    pub open spec fn value(self, slot: i32, code: u16) -> Option<i32> {
        match self.values(code) {
            Some(values) => if 0 <= slot < values.len() {
                Some(values[slot as int])
            } else {
                None
            },
            None => None,
        }
    }

    /// The state after `code` has become `value` in the active slot. Nothing changes if the device
    /// does not have the code or the slot.
    pub open spec fn with_value(self, code: u16, value: i32) -> MtView {
        if self.values(code) is Some && self.active_slot < self.slots {
            let group = self.groups[self.find(code) as int];
            let changed = MtGroup {
                code: group.code,
                values: group.values.update(self.active_slot as int, value),
            };
            MtView { groups: self.groups.update(self.find(code) as int, changed), ..self }
        } else {
            self
        }
    }

    /// The indices of the slots that hold a contact, in ascending order.
    pub open spec fn valid_slots(self) -> Seq<int> {
        match self.values(ABS_MT_TRACKING_ID) {
            Some(ids) => valid_below(ids, ids.len()),
            None => Seq::empty(),
        }
    }
}

/// The position of the first group for `code`, or the number of groups if there is none.
pub open spec fn find_group(groups: Seq<MtGroup>, code: u16) -> nat
    decreases groups.len(),
{
    if groups.len() == 0 {
        0
    } else if groups[0].code == code {
        0
    } else {
        1 + find_group(groups.drop_first(), code)
    }
}

/// The indices below `limit` whose tracking ID is not negative, in ascending order.
pub open spec fn valid_below(ids: Seq<i32>, limit: nat) -> Seq<int>
    decreases limit,
{
    if limit == 0 {
        Seq::empty()
    } else {
        let below = valid_below(ids, (limit - 1) as nat);
        if ids[limit - 1] >= 0 {
            below.push(limit - 1)
        } else {
            below
        }
    }
}

/// Whether slots can have a value for `code`.
pub open spec fn is_group_code(code: u16) -> bool {
    ABS_MT_SLOT < code <= ABS_MAX
}

/// Whether a device with these axes is tracked as a multitouch device.
pub open spec fn mt_supported(axes: Set<u16>) -> bool {
    axes.contains(ABS_MT_SLOT) && axes.contains(ABS_MT_TRACKING_ID)
}

/// The codes in `axes` between `ABS_MT_SLOT` and `limit`, both excluded, in ascending order.
pub open spec fn mt_codes_below(axes: Set<u16>, limit: nat) -> Seq<u16>
    decreases limit,
{
    if limit <= ABS_MT_SLOT + 1 {
        Seq::empty()
    } else {
        let code = (limit - 1) as u16;
        let below = mt_codes_below(axes, (limit - 1) as nat);
        if axes.contains(code) {
            below.push(code)
        } else {
            below
        }
    }
}

/// The codes that a device with these axes has a group for.
pub open spec fn mt_codes(axes: Set<u16>) -> Seq<u16> {
    mt_codes_below(axes, ABS_MAX as nat)
}

/// The number of slots that are tracked on a device whose slot axis is described by `info`.
pub open spec fn slots_of(info: AbsInfo) -> nat {
    if info.maximum < 0 {
        0
    } else if info.maximum >= MAX_MT_SLOTS {
        MAX_MT_SLOTS as nat
    } else {
        (info.maximum + 1) as nat
    }
}

proof fn find_group_is_first(groups: Seq<MtGroup>, code: u16)
    ensures
        find_group(groups, code) <= groups.len(),
        find_group(groups, code) < groups.len() ==> groups[find_group(groups, code) as int].code
            == code,
        forall|i: int| 0 <= i < find_group(groups, code) ==> (#[trigger] groups[i]).code != code,
    decreases groups.len(),
{
    if groups.len() > 0 && groups[0].code != code {
        let rest = groups.drop_first();
        find_group_is_first(rest, code);
        assert forall|i: int| 0 <= i < find_group(groups, code) implies (#[trigger] groups[i]).code
            != code by {
            if i > 0 {
                assert(groups[i] == rest[i - 1]);
            }
        }
    }
}

proof fn find_group_unique(groups: Seq<MtGroup>, code: u16, found: int)
    requires
        0 <= found <= groups.len(),
        found < groups.len() ==> groups[found].code == code,
        forall|i: int| 0 <= i < found ==> (#[trigger] groups[i]).code != code,
    ensures
        find_group(groups, code) == found,
{
    find_group_is_first(groups, code);
    let first = find_group(groups, code) as int;
    if first < found {
        assert(groups[first].code == code);
    }
    if found < first {
        assert(groups[found].code == code);
    }
}

/// Group `g` of `count` groups of the given width lies inside the buffer.
proof fn group_bounds(g: int, count: int, width: int)
    requires
        0 <= g < count,
        1 <= width,
    ensures
        0 <= g * width,
        (g + 1) * width == g * width + width,
        (g + 1) * width <= count * width,
{
    assert(0 <= g * width) by (nonlinear_arith)
        requires
            0 <= g,
            1 <= width,
    ;
    assert((g + 1) * width == g * width + width) by (nonlinear_arith);
    assert((g + 1) * width <= count * width) by (nonlinear_arith)
        requires
            g + 1 <= count,
            1 <= width,
    ;
}

/// Groups of the same width do not overlap.
proof fn groups_disjoint(g: int, h: int, width: int)
    requires
        0 <= g < h,
        1 <= width,
    ensures
        g * width + width <= h * width,
{
    assert(g * width + width <= h * width) by (nonlinear_arith)
        requires
            g + 1 <= h,
            1 <= width,
    ;
}

/// The group that starts at index `g * width` of the buffer.
spec fn group_at(data: Seq<i32>, width: int, g: int) -> MtGroup {
    MtGroup {
        code: data[g * width] as u16,
        values: data.subrange(g * width + 1, g * width + width),
    }
}

/// Storage for the current multitouch state.
pub struct MtStorage {
    /// The number of slots.
    slots: u32,
    /// The number of groups.
    codes: u32,
    /// The slot that events refer to.
    active_slot: u32,
    /// `codes` groups, each made of the `ABS_MT_*` code followed by one value per slot.
    data: Vec<i32>,
}

impl View for MtStorage {
    type V = MtView;

    closed spec fn view(&self) -> MtView {
        MtView {
            slots: self.slots as nat,
            groups: Seq::new(self.codes as nat, |g: int| group_at(self.data@, self.width(), g)),
            active_slot: self.active_slot,
        }
    }
}

impl MtStorage {
    /// The length of a group in the buffer.
    spec fn width(&self) -> int {
        self.slots + 1
    }

    /// Whether the buffer holds exactly the groups it should.
    pub closed spec fn wf(&self) -> bool {
        &&& self.slots <= MAX_MT_SLOTS
        &&& self.codes <= ABS_MAX
        &&& self.data@.len() == self.codes * self.width()
        &&& forall|g: int|
            0 <= g < self.codes ==> ABS_MT_SLOT < #[trigger] self.data@[g * self.width()]
                <= ABS_MAX
    }

    /// Every group has one value for each slot, and a code that slots can have.
    pub proof fn groups_fill_slots(&self)
        requires
            self.wf(),
        ensures
            self@.slots <= MAX_MT_SLOTS,
            self@.is_complete(),
            forall|g: int|
                0 <= g < self@.groups.len() ==> is_group_code((#[trigger] self@.groups[g]).code),
    {
        assert forall|g: int| 0 <= g < self@.groups.len() implies {
            &&& (#[trigger] self@.groups[g]).values.len() == self@.slots
            &&& is_group_code(self@.groups[g].code)
        } by {
            group_bounds(g, self.codes as int, self.width());
            assert(self.data@[g * self.width()] as u16 == self.data@[g * self.width()]);
        }
    }

    /// Creates the storage of a device without multitouch support.
    pub fn empty() -> (storage: Self)
        ensures
            storage.wf(),
            storage@ == MtView::empty(),
    {
        let storage = MtStorage { data: Vec::new(), slots: 0, codes: 0, active_slot: 0 };
        assert(storage@ =~= MtView::empty());
        storage
    }

    /// Returns whether a device with these axes is tracked as a multitouch device: whether it has
    /// both a slot axis and tracking IDs.
    pub fn supported(abs_axes: &BitSet<Abs>) -> (supported: bool)
        ensures
            supported == mt_supported(abs_axes@),
    {
        abs_axes.contains(Abs::from_raw(ABS_MT_SLOT)) && abs_axes.contains(
            Abs::from_raw(ABS_MT_TRACKING_ID),
        )
    }

    /// Returns the number of slots to track on a device whose slot axis is described by `info`.
    pub fn slot_count(info: &AbsInfo) -> (slots: u32)
        ensures
            slots == slots_of(*info),
    {
        if info.maximum < 0 {
            0
        } else if info.maximum >= MAX_MT_SLOTS {
            MAX_MT_SLOTS as u32
        } else {
            (info.maximum + 1) as u32
        }
    }

    /// Returns the codes whose values have to be fetched from a device with these axes, in
    /// ascending order.
    pub fn codes_to_fetch(abs_axes: &BitSet<Abs>) -> (codes: Vec<Abs>)
        ensures
            codes@.map_values(|code: Abs| code.code()) == mt_codes(abs_axes@),
    {
        let mut codes: Vec<Abs> = Vec::new();
        let mut next: u16 = ABS_MT_SLOT + 1;
        assert(codes@.map_values(|code: Abs| code.code()) =~= mt_codes_below(
            abs_axes@,
            next as nat,
        ));
        while next < ABS_MAX
            invariant
                ABS_MT_SLOT < next <= ABS_MAX,
                codes@.map_values(|code: Abs| code.code()) == mt_codes_below(
                    abs_axes@,
                    next as nat,
                ),
            decreases ABS_MAX - next,
        {
            let ghost before = codes@;
            let code = Abs::from_raw(next);
            if abs_axes.contains(code) {
                codes.push(code);
                assert(codes@.map_values(|code: Abs| code.code()) =~= before.map_values(
                    |code: Abs| code.code(),
                ).push(next));
            }
            next = next + 1;
        }
        codes
    }

    /// Builds the current multitouch state of a device.
    ///
    /// `info` describes the slot axis, and `values` holds, for each of the codes to fetch, one
    /// value per slot. The result is empty if the device is not tracked as a multitouch device.
    pub fn current(abs_axes: &BitSet<Abs>, info: &AbsInfo, values: &[Vec<i32>]) -> (storage: Self)
        requires
            mt_supported(abs_axes@) ==> values@.len() == mt_codes(abs_axes@).len(),
            mt_supported(abs_axes@) ==> forall|i: int|
                0 <= i < values@.len() ==> (#[trigger] values@[i])@.len() == slots_of(*info),
        ensures
            storage.wf(),
            !mt_supported(abs_axes@) ==> storage@ == MtView::empty(),
            mt_supported(abs_axes@) ==> storage@ == (MtView {
                slots: slots_of(*info),
                groups: Seq::new(
                    values@.len(),
                    |i: int| MtGroup { code: mt_codes(abs_axes@)[i], values: values@[i]@ },
                ),
                active_slot: if info.value > 0 {
                    info.value as u32
                } else {
                    0
                },
            }),
    {
        if !MtStorage::supported(abs_axes) {
            return MtStorage::empty();
        }
        let codes = MtStorage::codes_to_fetch(abs_axes);
        let slots = MtStorage::slot_count(info);
        let active_slot: u32 = if info.value > 0 {
            info.value as u32
        } else {
            0
        };
        let mut storage = MtStorage { data: Vec::new(), slots, codes: 0, active_slot };
        let ghost wanted = mt_codes(abs_axes@);
        let ghost groups = Seq::new(
            values@.len(),
            |i: int| MtGroup { code: wanted[i], values: values@[i]@ },
        );
        proof {
            assert(codes@.map_values(|code: Abs| code.code()).len() == codes@.len());
            mt_codes_bounded(abs_axes@, ABS_MAX as nat);
        }
        let mut next: usize = 0;
        assert(storage@.groups =~= groups.take(0));
        while next < codes.len()
            invariant
                next <= codes.len() <= ABS_MAX,
                codes@.len() == values@.len(),
                codes@.map_values(|code: Abs| code.code()) == wanted,
                groups == Seq::new(
                    values@.len(),
                    |i: int| MtGroup { code: wanted[i], values: values@[i]@ },
                ),
                forall|i: int| 0 <= i < wanted.len() ==> is_group_code(#[trigger] wanted[i]),
                forall|i: int|
                    0 <= i < values@.len() ==> (#[trigger] values@[i])@.len() == storage.slots,
                storage.wf(),
                storage.slots == slots,
                storage.active_slot == active_slot,
                storage.codes == next,
                storage@.groups == groups.take(next as int),
            decreases codes.len() - next,
        {
            let ghost before = storage;
            assert(codes@.map_values(|code: Abs| code.code())[next as int] == wanted[next as int]);
            let code = codes[next].raw();
            storage.push_group(code, &values[next]);
            assert(groups.take(next + 1) =~= groups.take(next as int).push(groups[next as int]));
            next = next + 1;
        }
        assert(groups.take(next as int) =~= groups);
        storage
    }

    /// Appends a group.
    fn push_group(&mut self, code: u16, values: &Vec<i32>)
        requires
            old(self).wf(),
            old(self).codes < ABS_MAX,
            is_group_code(code),
            values@.len() == old(self).slots,
        ensures
            final(self).wf(),
            final(self).slots == old(self).slots,
            final(self).codes == old(self).codes + 1,
            final(self).active_slot == old(self).active_slot,
            final(self)@.groups == old(self)@.groups.push(MtGroup { code, values: values@ }),
    {
        let ghost old_data = self.data@;
        let ghost width = self.width();
        let ghost count = self.codes as int;
        self.data.push(code as i32);
        let mut next: usize = 0;
        while next < values.len()
            invariant
                next <= values.len(),
                values@.len() == self.slots,
                self.slots == old(self).slots,
                self.codes == old(self).codes,
                self.active_slot == old(self).active_slot,
                self.data@ == old_data.push(code as i32) + values@.take(next as int),
            decreases values.len() - next,
        {
            assert(values@.take(next + 1) =~= values@.take(next as int).push(values@[next as int]));
            self.data.push(values[next]);
            next = next + 1;
        }
        self.codes = self.codes + 1;
        proof {
            assert(values@.take(next as int) =~= values@);
            assert((count + 1) * width == count * width + width) by (nonlinear_arith);
            assert forall|g: int| 0 <= g < self.codes implies ABS_MT_SLOT
                < #[trigger] self.data@[g * self.width()] <= ABS_MAX by {
                if g < count {
                    group_bounds(g, count, width);
                    assert(self.data@[g * width] == old_data[g * width]);
                }
            }
            let groups = old(self)@.groups.push(MtGroup { code, values: values@ });
            assert forall|g: int| 0 <= g < self.codes implies group_at(self.data@, width, g)
                =~= groups[g] by {
                if g < count {
                    group_bounds(g, count, width);
                    assert(self.data@.subrange(g * width + 1, g * width + width)
                        =~= old_data.subrange(g * width + 1, g * width + width));
                } else {
                    assert(self.data@.subrange(g * width + 1, g * width + width) =~= values@);
                }
            }
            assert(self@.groups =~= groups);
        }
    }

    /// Returns the number of slots.
    pub fn slots(&self) -> (slots: u32)
        ensures
            slots == self@.slots,
    {
        self.slots
    }

    /// Returns the number of groups.
    pub fn codes(&self) -> (codes: u32)
        ensures
            codes == self@.groups.len(),
    {
        self.codes
    }

    /// Returns the slot that events refer to.
    pub fn active_slot(&self) -> (slot: u32)
        ensures
            slot == self@.active_slot,
    {
        self.active_slot
    }

    /// Selects the slot that events refer to.
    pub fn select_slot(&mut self, slot: u32)
        requires
            old(self).wf(),
        ensures
            final(self).wf(),
            final(self)@ == (MtView { active_slot: slot, ..old(self)@ }),
    {
        self.active_slot = slot;
        assert(self@.groups =~= old(self)@.groups);
    }

    /// Returns where the group at position `index` starts in the buffer.
    fn group_start(&self, index: u32) -> (start: usize)
        requires
            self.wf(),
            index < self.codes,
        ensures
            start == index * self.width(),
            start + self.width() <= self.data@.len() <= usize::MAX,
    {
        proof {
            group_bounds(index as int, self.codes as int, self.width());
        }
        let len = self.data.len();
        assert(len == self.data@.len());
        index as usize * (self.slots as usize + 1)
    }

    /// Returns the code and the values of the group at position `index`.
    pub fn group(&self, index: u32) -> (group: (Abs, &[i32]))
        requires
            self.wf(),
            index < self@.groups.len(),
        ensures
            group.0.code() == self@.groups[index as int].code,
            group.1@ == self@.groups[index as int].values,
    {
        let start = self.group_start(index);
        let width = self.slots as usize + 1;
        let code = self.data[start];
        (Abs::from_raw(code as u16), slice_subrange(self.data.as_slice(), start + 1, start + width))
    }

    /// Returns the position of the first group for `code`, if there is one.
    fn group_index(&self, code: Abs) -> (index: Option<u32>)
        requires
            self.wf(),
        ensures
            match index {
                Some(g) => {
                    &&& is_group_code(code.code())
                    &&& g == self@.find(code.code())
                    &&& g < self@.groups.len()
                },
                None => self@.values(code.code()) is None,
            },
    {
        let raw = code.raw();
        if raw <= ABS_MT_SLOT || raw > ABS_MAX {
            return None;
        }
        let mut next: u32 = 0;
        while next < self.codes
            invariant
                self.wf(),
                next <= self.codes,
                raw == code.code(),
                is_group_code(raw),
                forall|g: int| 0 <= g < next ==> (#[trigger] self@.groups[g]).code != raw,
            decreases self.codes - next,
        {
            let start = self.group_start(next);
            if self.data[start] == raw as i32 {
                proof {
                    find_group_unique(self@.groups, raw, next as int);
                }
                return Some(next);
            }
            next = next + 1;
        }
        proof {
            find_group_unique(self@.groups, raw, next as int);
        }
        None
    }

    /// Returns the values of `code`, one per slot.
    ///
    /// Returns [`None`] if `code` is not an `ABS_MT_*` code above `ABS_MT_SLOT`, or if the device
    /// does not have it.
    pub fn group_for_code(&self, code: Abs) -> (values: Option<&[i32]>)
        requires
            self.wf(),
        ensures
            match values {
                Some(values) => self@.values(code.code()) == Some(values@),
                None => self@.values(code.code()) is None,
            },
    {
        match self.group_index(code) {
            Some(index) => Some(self.group(index).1),
            None => None,
        }
    }

    /// Sets the value of `code` in the active slot. Nothing happens if the device does not have
    /// the code or the slot.
    pub fn set_value(&mut self, code: Abs, value: i32)
        requires
            old(self).wf(),
        ensures
            final(self).wf(),
            final(self)@ == old(self)@.with_value(code.code(), value),
    {
        proof {
            self.groups_fill_slots();
        }
        if let Some(index) = self.group_index(code) {
            if self.active_slot < self.slots {
                let ghost width = self.width();
                let ghost count = self.codes as int;
                let ghost g = index as int;
                proof {
                    group_bounds(g, count, width);
                }
                let start = self.group_start(index);
                let position = start + 1 + self.active_slot as usize;
                self.data.set(position, value);
                proof {
                    let groups = old(self)@.with_value(code.code(), value).groups;
                    assert forall|h: int| 0 <= h < count implies {
                        &&& self.data@[h * width] == old(self).data@[h * width]
                        &&& #[trigger] group_at(self.data@, width, h) =~= groups[h]
                    } by {
                        group_bounds(h, count, width);
                        if h < g {
                            groups_disjoint(h, g, width);
                        }
                        if g < h {
                            groups_disjoint(g, h, width);
                        }
                        assert(group_at(self.data@, width, h).values =~= groups[h].values);
                    }
                    assert forall|h: int| 0 <= h < self.codes implies ABS_MT_SLOT
                        < #[trigger] self.data@[h * self.width()] <= ABS_MAX by {
                        assert(group_at(self.data@, width, h) == groups[h]);
                    }
                    assert(self@.groups =~= groups);
                }
            }
        }
    }

    /// Returns the slots that hold a contact, in ascending order.
    ///
    /// A slot holds a contact if its tracking ID is not negative.
    pub fn valid_slots(&self) -> (slots: Vec<Slot>)
        requires
            self.wf(),
        ensures
            slots@.map_values(|slot: Slot| slot.raw as int) == self@.valid_slots(),
    {
        let mut slots: Vec<Slot> = Vec::new();
        assert(slots@.map_values(|slot: Slot| slot.raw as int) =~= Seq::<int>::empty());
        proof {
            self.groups_fill_slots();
        }
        if let Some(ids) = self.group_for_code(Abs::from_raw(ABS_MT_TRACKING_ID)) {
            let mut next: usize = 0;
            while next < ids.len()
                invariant
                    next <= ids.len() <= MAX_MT_SLOTS,
                    slots@.map_values(|slot: Slot| slot.raw as int) == valid_below(
                        ids@,
                        next as nat,
                    ),
                decreases ids.len() - next,
            {
                let ghost before = slots@;
                if ids[next] >= 0 {
                    slots.push(Slot::from(next as u16));
                    assert(slots@.map_values(|slot: Slot| slot.raw as int) =~= before.map_values(
                        |slot: Slot| slot.raw as int,
                    ).push(next as int));
                }
                next = next + 1;
            }
        }
        slots
    }

    /// Takes over the state of `src`.
    pub fn resync_from(&mut self, src: &MtStorage)
        requires
            src.wf(),
        ensures
            final(self).wf(),
            final(self)@ == src@,
    {
        self.data = src.data.clone();
        self.slots = src.slots;
        self.codes = src.codes;
        self.active_slot = src.active_slot;
        assert(self.data@ =~= src.data@);
        assert(self@ =~= src@);
    }
}

/// The codes to fetch are codes that slots can have, and there are fewer of them than axes.
proof fn mt_codes_bounded(axes: Set<u16>, limit: nat)
    requires
        limit <= ABS_MAX,
    ensures
        mt_codes_below(axes, limit).len() <= limit,
        forall|i: int|
            0 <= i < mt_codes_below(axes, limit).len() ==> is_group_code(
                #[trigger] mt_codes_below(axes, limit)[i],
            ),
    decreases limit,
{
    if limit > ABS_MT_SLOT + 1 {
        mt_codes_bounded(axes, (limit - 1) as nat);
    }
}

/// The values of a code are those of the first group for it. There are none for a code without a
/// group, nor for a code that slots cannot have. A slot has its own value of them, if it is one of
/// the slots that there are values for.
pub proof fn values_are_found_by_code(mt: MtView, code: u16, group: int, slot: i32)
    requires
        0 <= group <= mt.groups.len(),
        forall|g: int| 0 <= g < group ==> (#[trigger] mt.groups[g]).code != code,
        group < mt.groups.len() ==> mt.groups[group].code == code,
    ensures
        ABS_MT_SLOT < code <= ABS_MAX && group < mt.groups.len() ==> mt.values(code) == Some(
            mt.groups[group].values,
        ),
        !(ABS_MT_SLOT < code <= ABS_MAX) || group == mt.groups.len() ==> mt.values(code) is None,
        match mt.values(code) {
            Some(values) => mt.value(slot, code) == if 0 <= slot < values.len() {
                Some(values[slot as int])
            } else {
                None
            },
            None => mt.value(slot, code) is None,
        },
{
    find_group_unique(mt.groups, code, group);
}

proof fn valid_below_is_exact(ids: Seq<i32>, limit: nat)
    requires
        limit <= ids.len(),
    ensures
        forall|i: int, j: int|
            0 <= i < j < valid_below(ids, limit).len() ==> #[trigger] valid_below(ids, limit)[i]
                < #[trigger] valid_below(ids, limit)[j],
        forall|slot: int| #[trigger]
            valid_below(ids, limit).contains(slot) <==> 0 <= slot < limit && ids[slot] >= 0,
    decreases limit,
{
    if limit > 0 {
        let last = limit - 1;
        let below = valid_below(ids, last as nat);
        let all = valid_below(ids, limit);
        valid_below_is_exact(ids, last as nat);
        assert forall|i: int| 0 <= i < below.len() implies #[trigger] below[i] < last by {
            assert(below.contains(below[i]));
        }
        if ids[last] >= 0 {
            assert forall|slot: int| #[trigger] all.contains(slot) <==> 0 <= slot < limit
                && ids[slot] >= 0 by {
                if below.contains(slot) {
                    let i = choose|i: int| 0 <= i < below.len() && below[i] == slot;
                    assert(all[i] == slot);
                }
                if slot == last {
                    assert(all[below.len() as int] == slot);
                }
                if all.contains(slot) {
                    let i = choose|i: int| 0 <= i < all.len() && all[i] == slot;
                    if i < below.len() {
                        assert(below.contains(below[i]));
                    }
                }
            }
        }
    }
}

/// A slot is valid if and only if it is one of the device's slots and its tracking ID is not
/// negative. Valid slots are listed once each, in ascending order, and a device without tracking
/// IDs has none.
pub proof fn valid_slots_are_those_with_a_contact(mt: MtView)
    requires
        mt.is_complete(),
    ensures
        forall|i: int, j: int|
            0 <= i < j < mt.valid_slots().len() ==> #[trigger] mt.valid_slots()[i]
                < #[trigger] mt.valid_slots()[j],
        forall|slot: int| #[trigger]
            mt.valid_slots().contains(slot) <==> {
                &&& 0 <= slot < mt.slots
                &&& mt.values(ABS_MT_TRACKING_ID) matches Some(ids)
                &&& ids[slot] >= 0
            },
        forall|slot: i32| #[trigger]
            mt.valid_slots().contains(slot as int) <==> (mt.value(
                slot,
                ABS_MT_TRACKING_ID,
            ) matches Some(id) && id >= 0),
{
    match mt.values(ABS_MT_TRACKING_ID) {
        Some(ids) => {
            find_group_is_first(mt.groups, ABS_MT_TRACKING_ID);
            assert(ids == mt.groups[mt.find(ABS_MT_TRACKING_ID) as int].values);
            valid_below_is_exact(ids, ids.len());
        },
        None => {},
    }
}

proof fn mt_codes_below_are_exact(axes: Set<u16>, limit: nat)
    requires
        limit <= ABS_MAX,
    ensures
        forall|i: int, j: int|
            0 <= i < j < mt_codes_below(axes, limit).len() ==> #[trigger] mt_codes_below(
                axes,
                limit,
            )[i] < #[trigger] mt_codes_below(axes, limit)[j],
        forall|code: u16| #[trigger]
            mt_codes_below(axes, limit).contains(code) <==> ABS_MT_SLOT < code < limit
                && axes.contains(code),
    decreases limit,
{
    if limit > ABS_MT_SLOT + 1 {
        let last = (limit - 1) as u16;
        let below = mt_codes_below(axes, (limit - 1) as nat);
        let all = mt_codes_below(axes, limit);
        mt_codes_below_are_exact(axes, (limit - 1) as nat);
        assert forall|i: int| 0 <= i < below.len() implies #[trigger] below[i] < last by {
            assert(below.contains(below[i]));
        }
        if axes.contains(last) {
            push_keeps_ascending(below, last);
        }
    }
}

/// The codes to fetch from a device are those of its axes that lie between `ABS_MT_SLOT` and
/// `ABS_MAX`, each once and in ascending order.
pub proof fn fetched_codes_are_those_of_the_device(axes: Set<u16>)
    ensures
        forall|i: int, j: int|
            0 <= i < j < mt_codes(axes).len() ==> #[trigger] mt_codes(axes)[i]
                < #[trigger] mt_codes(axes)[j],
        forall|code: u16| #[trigger]
            mt_codes(axes).contains(code) <==> ABS_MT_SLOT < code < ABS_MAX && axes.contains(code),
        mt_supported(axes) <==> axes.contains(ABS_MT_SLOT) && axes.contains(ABS_MT_TRACKING_ID),
{
    mt_codes_below_are_exact(axes, ABS_MAX as nat);
}

/// A device has one slot more than the largest index on its slot axis, of which the first 60 are
/// tracked. It has none if that index is negative.
pub proof fn slots_are_counted_from_zero(info: AbsInfo)
    ensures
        info.maximum < 0 ==> slots_of(info) == 0,
        0 <= info.maximum < 60 ==> slots_of(info) == info.maximum + 1,
        info.maximum >= 60 ==> slots_of(info) == 60,
{
}

/// A device without multitouch support has no slots, no values and no contacts.
pub proof fn nothing_is_known_without_multitouch(slot: i32, code: u16)
    ensures
        MtView::empty().slots == 0,
        MtView::empty().active_slot == 0,
        MtView::empty().value(slot, code) is None,
        MtView::empty().valid_slots().len() == 0,
{
    find_group_is_first(MtView::empty().groups, code);
    find_group_is_first(MtView::empty().groups, ABS_MT_TRACKING_ID);
}

} // verus!
