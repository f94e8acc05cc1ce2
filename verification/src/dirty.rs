use vstd::prelude::*;

verus! {

/// The mask of a single state variable's dirty bit.
pub open spec fn bit(id: u32) -> u64 {
    (1u64 << id) as u64
}

/// Whether the dirty bit of state variable `id` is set in `bits`.
pub open spec fn is_dirty_bit(bits: u64, id: u32) -> bool {
    bits & bit(id) != 0
}

/// Tests the bit of state variable `id` in a snapshot of the dirty flags
/// (`flags & 1 << id != 0`).
pub fn flag_set(flags: u64, id: u32) -> (res: bool)
    requires
        id < 64,
    ensures
        res == is_dirty_bit(flags, id),
{
    flags & (1u64 << id) != 0
}

/// The set of state variables changed since the flags were last reset:
/// bit `id` is set once the variable with that id was written.
pub struct DirtyFlags {
    bits: u64,
}

impl View for DirtyFlags {
    type V = u64;

    closed spec fn view(&self) -> u64 {
        self.bits
    }
}

impl DirtyFlags {
    /// No variable dirty.
    pub fn new() -> (f: Self)
        ensures
            f@ == 0,
    {
        DirtyFlags { bits: 0 }
    }

    /// Every variable dirty (used for the first render).
    pub fn all() -> (f: Self)
        ensures
            f@ == u64::MAX,
    {
        DirtyFlags { bits: u64::MAX }
    }

    pub fn load(&self) -> (bits: u64)
        ensures
            bits == self@,
    {
        self.bits
    }

    pub fn store(&mut self, bits: u64)
        ensures
            final(self)@ == bits,
    {
        self.bits = bits;
    }

    /// `fetch_or`: adds the bits of `mask`, returns the previous bits.
    pub fn fetch_or(&mut self, mask: u64) -> (prev: u64)
        ensures
            prev == old(self)@,
            final(self)@ == old(self)@ | mask,
    {
        let prev = self.bits;
        self.bits = self.bits | mask;
        prev
    }

    /// `fetch_and`: keeps only the bits of `mask`, returns the previous bits.
    pub fn fetch_and(&mut self, mask: u64) -> (prev: u64)
        ensures
            prev == old(self)@,
            final(self)@ == old(self)@ & mask,
    {
        let prev = self.bits;
        self.bits = self.bits & mask;
        prev
    }

    /// Marks state variable `id` as changed.
    pub fn mark(&mut self, id: u32)
        requires
            id < 64,
        ensures
            final(self)@ == old(self)@ | bit(id),
    {
        self.bits = self.bits | (1u64 << id);
    }

    pub fn is_dirty(&self, id: u32) -> (res: bool)
        requires
            id < 64,
        ensures
            res == is_dirty_bit(self@, id),
    {
        flag_set(self.bits, id)
    }
}

/// Marking a variable makes it dirty.
pub proof fn lemma_mark_sets(bits: u64, id: u32)
    requires
        id < 64,
    ensures
        is_dirty_bit(bits | bit(id), id),
{
    assert((bits | (1u64 << id)) & (1u64 << id) != 0) by (bit_vector)
        requires
            id < 64,
    ;
}

/// Marking a variable leaves the bit of every other variable as it was.
pub proof fn lemma_mark_keeps_others(bits: u64, id: u32, other: u32)
    requires
        id < 64,
        other < 64,
        other != id,
    ensures
        is_dirty_bit(bits | bit(id), other) == is_dirty_bit(bits, other),
{
    assert(((bits | (1u64 << id)) & (1u64 << other) != 0) == (bits & (1u64 << other) != 0))
        by (bit_vector)
        requires
            id < 64,
            other < 64,
            other != id,
    ;
}

/// After a reset no variable is dirty; after marking all, every one is.
pub proof fn lemma_reset_and_all(id: u32)
    requires
        id < 64,
    ensures
        !is_dirty_bit(0, id),
        is_dirty_bit(u64::MAX, id),
{
    assert(0u64 & (1u64 << id) == 0) by (bit_vector)
        requires
            id < 64,
    ;
    assert(u64::MAX & (1u64 << id) != 0) by (bit_vector)
        requires
            id < 64,
    ;
}

/// A reactive state variable: reading it is free, writing it through
/// `get_mut` marks its id in the dirty flags.
pub struct MutateTracker<T> {
    value: T,
    id: u32,
}

impl<T> MutateTracker<T> {
    pub closed spec fn value(&self) -> T {
        self.value
    }

    pub closed spec fn spec_id(&self) -> u32 {
        self.id
    }

    pub fn new(value: T, id: u32) -> (t: Self)
        ensures
            t.value() == value,
            t.spec_id() == id,
    {
        MutateTracker { value, id }
    }

    pub fn id(&self) -> (id: u32)
        ensures
            id == self.spec_id(),
    {
        self.id
    }

    /// Read access (`Deref`).
    pub fn get(&self) -> (r: &T)
        ensures
            *r == self.value(),
    {
        &self.value
    }

    /// Write access (`DerefMut`): marks this variable dirty.
    pub fn get_mut<'a>(&'a mut self, flags: &mut DirtyFlags) -> (r: &'a mut T)
        requires
            old(self).spec_id() < 64,
        ensures
            *r == old(self).value(),
            final(self).value() == *final(r),
            final(self).spec_id() == old(self).spec_id(),
            final(flags)@ == old(flags)@ | bit(old(self).spec_id()),
    {
        flags.mark(self.id);
        &mut self.value
    }
}


/// The masks of the first bits, as the generated components write them (`1 << id`).
pub proof fn lemma_low_bits()
    ensures
        bit(0) == 1,
        bit(1) == 2,
        bit(2) == 4,
        bit(3) == 8,
        bit(4) == 16,
{
    assert((1u64 << 0u32) == 1u64) by (bit_vector);
    assert((1u64 << 1u32) == 2u64) by (bit_vector);
    assert((1u64 << 2u32) == 4u64) by (bit_vector);
    assert((1u64 << 3u32) == 8u64) by (bit_vector);
    assert((1u64 << 4u32) == 16u64) by (bit_vector);
}

/// Setting one bit leaves the test of every other single bit unchanged.
pub proof fn lemma_or_bit_keeps(f: u64, set: u64, test: u64)
    requires
        set == 1 || set == 2 || set == 4 || set == 8 || set == 16,
        test == 1 || test == 2 || test == 4 || test == 8 || test == 16,
        set != test,
    ensures
        ((f | set) & test != 0) == (f & test != 0),
        (f | set) & set != 0,
{
    assert(((f | set) & test != 0) == (f & test != 0)) by (bit_vector)
        requires
            set == 1 || set == 2 || set == 4 || set == 8 || set == 16,
            test == 1 || test == 2 || test == 4 || test == 8 || test == 16,
            set != test,
    ;
    assert((f | set) & set != 0) by (bit_vector)
        requires
            set == 1 || set == 2 || set == 4 || set == 8 || set == 16,
    ;
}

/// Every single bit is set in `u64::MAX` and clear in 0.
pub proof fn lemma_all_or_none(test: u64)
    requires
        test == 1 || test == 2 || test == 3 || test == 4 || test == 8 || test == 16,
    ensures
        u64::MAX & test != 0,
        0u64 & test == 0,
{
    assert(u64::MAX & test != 0) by (bit_vector)
        requires
            test == 1 || test == 2 || test == 3 || test == 4 || test == 8 || test == 16,
    ;
    assert(0u64 & test == 0) by (bit_vector);
}

} // verus!
