//! Sets of event codes, stored one bit per code.
use crate::event::BitValue;
use std::marker::PhantomData;
use vstd::prelude::*;
use vstd::std_specs::cmp::PartialEqSpec;

verus! {

/// The number of distinct event codes.
pub const CODES: usize = 0x1_0000;

/// Whether bit `index` of `word` is set.
spec fn has_bit(word: u64, index: u64) -> bool {
    (word >> index) & 1 == 1
}

/// Whether the words hold the bit of the code `raw`.
spec fn holds(words: Seq<u64>, raw: int) -> bool {
    raw / 64 < words.len() && has_bit(words[raw / 64], (raw % 64) as u64)
}

/// A set of values of the type `V`.
#[derive(Debug)]
pub struct BitSet<V> {
    /// Bit `i` of word `w` belongs to the code `64 * w + i`. Codes past the last word are absent.
    words: Vec<u64>,
    marker: PhantomData<V>,
}

impl<V> View for BitSet<V> {
    type V = Set<u16>;

    /// The raw codes of the members.
    closed spec fn view(&self) -> Set<u16> {
        Set::new(|raw: u16| holds(self.words@, raw as int))
    }
}

/// The codes below `limit` that are in exactly one of `a` and `b`, in ascending order.
pub open spec fn difference_below(a: Set<u16>, b: Set<u16>, limit: nat) -> Seq<u16>
    decreases limit,
{
    if limit == 0 {
        Seq::empty()
    } else {
        let raw = (limit - 1) as u16;
        let below = difference_below(a, b, (limit - 1) as nat);
        if a.contains(raw) != b.contains(raw) {
            below.push(raw)
        } else {
            below
        }
    }
}

/// The codes that are in exactly one of `a` and `b`, in ascending order.
pub open spec fn difference(a: Set<u16>, b: Set<u16>) -> Seq<u16> {
    difference_below(a, b, CODES as nat)
}

/// Whether the codes strictly ascend, so that none occurs twice.
pub open spec fn ascending(codes: Seq<u16>) -> bool {
    forall|i: int, j: int| 0 <= i < j < codes.len() ==> #[trigger] codes[i] < #[trigger] codes[j]
}

/// A code that is above all others can be appended.
pub proof fn push_keeps_ascending(codes: Seq<u16>, code: u16)
    requires
        ascending(codes),
        forall|i: int| 0 <= i < codes.len() ==> #[trigger] codes[i] < code,
    ensures
        ascending(codes.push(code)),
        forall|other: u16| #[trigger]
            codes.push(code).contains(other) <==> codes.contains(other) || other == code,
{
    let all = codes.push(code);
    assert forall|other: u16| #[trigger] all.contains(other) <==> codes.contains(other) || other
        == code by {
        if codes.contains(other) {
            let i = choose|i: int| 0 <= i < codes.len() && codes[i] == other;
            assert(all[i] == other);
        }
        if other == code {
            assert(all[codes.len() as int] == other);
        }
        if all.contains(other) {
            let i = choose|i: int| 0 <= i < all.len() && all[i] == other;
            if i < codes.len() {
                assert(codes[i] == other);
            }
        }
    }
}

/// The difference below `limit` has each code that is in exactly one of the sets once, in ascending
/// order, and no other code.
proof fn difference_below_is_exact(a: Set<u16>, b: Set<u16>, limit: nat)
    requires
        limit <= CODES,
    ensures
        ascending(difference_below(a, b, limit)),
        forall|code: u16| #[trigger]
            difference_below(a, b, limit).contains(code) <==> code < limit && a.contains(code)
                != b.contains(code),
    decreases limit,
{
    if limit > 0 {
        let raw = (limit - 1) as u16;
        let below = difference_below(a, b, (limit - 1) as nat);
        difference_below_is_exact(a, b, (limit - 1) as nat);
        if a.contains(raw) != b.contains(raw) {
            assert forall|i: int| 0 <= i < below.len() implies #[trigger] below[i] < raw by {
                assert(below.contains(below[i]));
            }
            push_keeps_ascending(below, raw);
        }
    }
}

/// The difference has each code that is in exactly one of the sets once, in ascending order, and no
/// other code.
pub proof fn difference_is_exact(a: Set<u16>, b: Set<u16>)
    ensures
        forall|i: int, j: int|
            0 <= i < j < difference(a, b).len() ==> #[trigger] difference(a, b)[i]
                < #[trigger] difference(a, b)[j],
        forall|code: u16| #[trigger]
            difference(a, b).contains(code) <==> a.contains(code) != b.contains(code),
{
    difference_below_is_exact(a, b, CODES as nat);
}

proof fn set_bit(word: u64, index: u64, other: u64)
    requires
        index < 64,
        other < 64,
    ensures
        has_bit(word | (1u64 << index), other) == (has_bit(word, other) || other == index),
{
    assert(((word | (1u64 << index)) >> other) & 1 == 1 <==> ((word >> other) & 1 == 1 || other
        == index)) by (bit_vector)
        requires
            index < 64,
            other < 64,
    ;
}

proof fn clear_bit(word: u64, index: u64, other: u64)
    requires
        index < 64,
        other < 64,
    ensures
        has_bit(word & !(1u64 << index), other) == (has_bit(word, other) && other != index),
{
    assert(((word & !(1u64 << index)) >> other) & 1 == 1 <==> ((word >> other) & 1 == 1 && other
        != index)) by (bit_vector)
        requires
            index < 64,
            other < 64,
    ;
}

proof fn no_bit(index: u64)
    ensures
        !has_bit(0, index),
{
    assert((0u64 >> index) & 1 != 1) by (bit_vector);
}

/// Codes from `low` on do not matter to the difference when neither set has one.
proof fn difference_ends(a: Set<u16>, b: Set<u16>, low: nat, high: nat)
    requires
        low <= high <= CODES,
        forall|raw: u16| low <= raw ==> !a.contains(raw) && !b.contains(raw),
    ensures
        difference_below(a, b, high) == difference_below(a, b, low),
    decreases high,
{
    if low < high {
        difference_ends(a, b, low, (high - 1) as nat);
    }
}

impl<V> BitSet<V> {
    /// Creates an empty set.
    pub fn new() -> (set: Self)
        ensures
            set@ == Set::<u16>::empty(),
    {
        let set = BitSet { words: Vec::new(), marker: PhantomData };
        assert(set@ =~= Set::<u16>::empty());
        set
    }

    /// Creates a set from the words of a bitmask, the lowest codes first.
    pub fn from_words(words: Vec<u64>) -> (set: Self)
        ensures
            forall|raw: u16|
                set@.contains(raw) <==> raw / 64 < words@.len() && (words@[raw as int / 64] >> ((
                raw % 64) as u64)) & 1 == 1,
    {
        BitSet { words, marker: PhantomData }
    }

    /// Returns whether the code `raw` is in the set.
    fn has(&self, raw: u16) -> (present: bool)
        ensures
            present == self@.contains(raw),
    {
        let word = (raw / 64) as usize;
        if word < self.words.len() {
            (self.words[word] >> ((raw % 64) as u64)) & 1 == 1
        } else {
            false
        }
    }

    /// One past the highest code that can be in the set, as far as the number of words tells.
    fn limit(&self) -> (limit: usize)
        ensures
            limit <= CODES,
            forall|raw: u16| limit <= raw ==> !self@.contains(raw),
    {
        if self.words.len() < CODES / 64 {
            self.words.len() * 64
        } else {
            CODES
        }
    }

    /// One past the highest code that can be in either set.
    fn joint_limit(&self, other: &BitSet<V>) -> (limit: usize)
        ensures
            limit <= CODES,
            forall|raw: u16| limit <= raw ==> !self@.contains(raw) && !other@.contains(raw),
    {
        let own = self.limit();
        let others = other.limit();
        if own < others {
            others
        } else {
            own
        }
    }
}

impl<V: BitValue> BitSet<V> {
    /// Returns whether `value` is in the set.
    pub fn contains(&self, value: V) -> (present: bool)
        ensures
            present == self@.contains(value.code()),
    {
        self.has(value.raw())
    }

    /// Adds `value` to the set. Returns whether it was absent before.
    pub fn insert(&mut self, value: V) -> (added: bool)
        ensures
            final(self)@ == old(self)@.insert(value.code()),
            added == !old(self)@.contains(value.code()),
    {
        let raw = value.raw();
        let added = !self.has(raw);
        let word = (raw / 64) as usize;
        let index = (raw % 64) as u64;
        while self.words.len() <= word
            invariant
                self@ == old(self)@,
            decreases word + 1 - self.words.len(),
        {
            let ghost before = *self;
            self.words.push(0);
            proof {
                assert forall|raw: u16| self@.contains(raw) == before@.contains(raw) by {
                    no_bit((raw as int % 64) as u64);
                }
                assert(self@ =~= before@);
            }
        }
        let ghost grown = *self;
        let updated = self.words[word] | (1u64 << index);
        self.words.set(word, updated);
        proof {
            assert forall|other: u16| self@.contains(other) == (grown@.contains(other) || other
                == raw) by {
                set_bit(grown.words@[word as int], index, (other as int % 64) as u64);
            }
            assert(self@ =~= old(self)@.insert(raw));
        }
        added
    }

    /// Removes `value` from the set. Returns whether it was present before.
    pub fn remove(&mut self, value: V) -> (removed: bool)
        ensures
            final(self)@ == old(self)@.remove(value.code()),
            removed == old(self)@.contains(value.code()),
    {
        let raw = value.raw();
        let removed = self.has(raw);
        let word = (raw / 64) as usize;
        let index = (raw % 64) as u64;
        if word < self.words.len() {
            let updated = self.words[word] & !(1u64 << index);
            self.words.set(word, updated);
            proof {
                assert forall|other: u16| self@.contains(other) == (old(self)@.contains(other)
                    && other != raw) by {
                    clear_bit(old(self).words@[word as int], index, (other as int % 64) as u64);
                }
            }
        }
        assert(self@ =~= old(self)@.remove(raw));
        removed
    }

    /// Returns the values that are in exactly one of the two sets, in ascending order of their
    /// codes.
    pub fn symmetric_difference(&self, other: &BitSet<V>) -> (values: Vec<V>)
        ensures
            values@.map_values(|value: V| value.code()) == difference(self@, other@),
    {
        let mut values: Vec<V> = Vec::new();
        let limit = self.joint_limit(other);
        let mut next: usize = 0;
        assert(values@.map_values(|value: V| value.code()) =~= difference_below(self@, other@, 0));
        while next < limit
            invariant
                next <= limit <= CODES,
                values@.map_values(|value: V| value.code()) == difference_below(
                    self@,
                    other@,
                    next as nat,
                ),
            decreases limit - next,
        {
            let raw = next as u16;
            let ghost before = values@;
            if self.has(raw) != other.has(raw) {
                let value = V::from_raw(raw);
                values.push(value);
                assert(values@.map_values(|value: V| value.code()) =~= before.map_values(
                    |value: V| value.code(),
                ).push(raw));
            }
            next = next + 1;
        }
        proof {
            difference_ends(self@, other@, limit as nat, CODES as nat);
        }
        values
    }
}

impl<V> Clone for BitSet<V> {
    fn clone(&self) -> (copy: Self)
        ensures
            copy@ == self@,
    {
        let words = self.words.clone();
        assert(words@ =~= self.words@);
        BitSet { words, marker: PhantomData }
    }
}

impl<V> PartialEq for BitSet<V> {
    fn eq(&self, other: &BitSet<V>) -> (equal: bool) {
        let limit = self.joint_limit(other);
        let mut next: usize = 0;
        while next < limit
            invariant
                next <= limit <= CODES,
                forall|raw: u16| raw < next ==> self@.contains(raw) == other@.contains(raw),
            decreases limit - next,
        {
            if self.has(next as u16) != other.has(next as u16) {
                return false;
            }
            next = next + 1;
        }
        assert(self@ =~= other@);
        true
    }
}

impl<V> vstd::std_specs::cmp::PartialEqSpecImpl for BitSet<V> {
    open spec fn obeys_eq_spec() -> bool {
        true
    }

    open spec fn eq_spec(&self, other: &BitSet<V>) -> bool {
        self@ == other@
    }
}

/// Sets are equal if and only if they have the same members, however they came to have them.
pub proof fn equal_sets_have_the_same_members<V>(a: BitSet<V>, b: BitSet<V>)
    ensures
        a.eq_spec(&b) <==> (forall|code: u16| #[trigger]
            a@.contains(code) == b@.contains(code)),
{
    if forall|code: u16| #[trigger] a@.contains(code) == b@.contains(code) {
        assert(a@ =~= b@);
    }
}

} // verus!
