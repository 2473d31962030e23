//! Machine-word utilities: raw addresses, address regions, and tagged
//! pointer words whose low three bits carry the mark, forwarded and pin
//! flags.

use vstd::prelude::*;

verus! {

/// The mask that removes the three tag bits from a tagged word.
pub const UNTAG_MASK: u64 = !0x7u64;

/// Whether bit `bit` of `pointer` is set, as a spec-level predicate.
pub open spec fn spec_bit_is_set(pointer: u64, bit: u64) -> bool {
    pointer & (1u64 << bit) == (1u64 << bit)
}

/// `pointer` with bit `bit` set, as a spec-level function.
pub open spec fn spec_with_bit(pointer: u64, bit: u64) -> u64 {
    pointer | (1u64 << bit)
}

/// `pointer` with bit `bit` cleared, as a spec-level function.
pub open spec fn spec_without_bit(pointer: u64, bit: u64) -> u64 {
    pointer & !(1u64 << bit)
}

/// `pointer` with all three tag bits cleared, as a spec-level function.
pub open spec fn spec_untagged(pointer: u64) -> u64 {
    pointer & UNTAG_MASK
}

/// Setting a bit makes exactly that bit true and leaves every other bit and
/// the untagged part (for tag bits) unchanged.
pub proof fn lemma_with_bit(p: u64, b: u64, c: u64)
    by (bit_vector)
    requires
        b < 64,
        c < 64,
    ensures
        spec_bit_is_set(spec_with_bit(p, b), b),
        c != b ==> spec_bit_is_set(spec_with_bit(p, b), c) == spec_bit_is_set(p, c),
        b < 3 ==> spec_untagged(spec_with_bit(p, b)) == spec_untagged(p),
        spec_with_bit(p, b) != 0,
{
}

/// Clearing a bit makes exactly that bit false and leaves every other bit
/// and the untagged part (for tag bits) unchanged.
pub proof fn lemma_without_bit(p: u64, b: u64, c: u64)
    by (bit_vector)
    requires
        b < 64,
        c < 64,
    ensures
        !spec_bit_is_set(spec_without_bit(p, b), b),
        c != b ==> spec_bit_is_set(spec_without_bit(p, b), c) == spec_bit_is_set(p, c),
        b < 3 ==> spec_untagged(spec_without_bit(p, b)) == spec_untagged(p),
{
}

/// Writing a bit to a chosen value changes exactly that bit and leaves
/// every other bit and the untagged part (for tag bits) unchanged.
pub proof fn lemma_set_bit_x(p: u64, x: bool, b: u64, c: u64)
    by (bit_vector)
    requires
        b < 64,
        c < 64,
    ensures
        spec_bit_is_set((p & !(1u64 << b)) | ((x as u64) << b), b) == x,
        c != b ==> spec_bit_is_set((p & !(1u64 << b)) | ((x as u64) << b), c) == spec_bit_is_set(
            p,
            c,
        ),
        b < 3 ==> spec_untagged((p & !(1u64 << b)) | ((x as u64) << b)) == spec_untagged(p),
{
}

/// Installing a forwarding word `addr | 2` over a 16-byte-aligned address
/// sets exactly the forwarded bit and keeps the address readable.
pub proof fn lemma_set_forwarded_word(addr: u64)
    by (bit_vector)
    requires
        addr % 16 == 0,
    ensures
        spec_untagged(spec_with_bit(addr, 1)) == addr,
        spec_bit_is_set(spec_with_bit(addr, 1), 1),
        !spec_bit_is_set(spec_with_bit(addr, 1), 0),
        !spec_bit_is_set(spec_with_bit(addr, 1), 2),
{
}

/// The untagged part has its three low bits clear, keeps every higher bit,
/// and equals the word itself whenever the word is 8-byte aligned.
pub proof fn lemma_untagged(p: u64, c: u64)
    by (bit_vector)
    requires
        c < 64,
    ensures
        spec_untagged(p) % 8 == 0,
        c >= 3 ==> spec_bit_is_set(spec_untagged(p), c) == spec_bit_is_set(p, c),
        c < 3 ==> !spec_bit_is_set(spec_untagged(p), c),
        p % 8 == 0 ==> spec_untagged(p) == p,
        spec_untagged(p) == 0 ==> p < 8,
{
}

/// Returns true if the pointer has the given bit set to 1.
pub fn bit_is_set(pointer: u64, bit: usize) -> (r: bool)
    requires
        bit < 64,
    ensures
        r == spec_bit_is_set(pointer, bit as u64),
{
    let shifted = 1u64 << bit;
    (pointer & shifted) == shifted
}

/// Returns the pointer with the given bit set.
pub fn with_bit(pointer: u64, bit: usize) -> (r: u64)
    requires
        bit < 64,
    ensures
        r == spec_with_bit(pointer, bit as u64),
{
    pointer | (1u64 << bit)
}

/// Returns the pointer with the given bit cleared.
pub fn without_bit(pointer: u64, bit: usize) -> (r: u64)
    requires
        bit < 64,
    ensures
        r == spec_without_bit(pointer, bit as u64),
{
    pointer & !(1u64 << bit)
}

/// Returns the given pointer without any tags set.
pub fn untagged(pointer: u64) -> (r: u64)
    ensures
        r == spec_untagged(pointer),
{
    pointer & UNTAG_MASK
}

/// A machine word wrapping a raw tagged pointer value.  The low three bits
/// carry flags; the rest is an 8-byte-aligned payload.
#[derive(Clone, Copy, Debug)]
pub struct TaggedPointer {
    /// The raw word, tags included.
    pub raw: u64,
}

impl TaggedPointer {
    /// Whether bit `bit` of the raw word is set.
    pub open spec fn spec_bit(&self, bit: u64) -> bool {
        spec_bit_is_set(self.raw, bit)
    }

    /// The raw word with the three tag bits cleared.
    pub open spec fn spec_untagged(&self) -> u64 {
        spec_untagged(self.raw)
    }

    /// Returns a new tagged pointer without setting any bits.
    pub fn new(raw: u64) -> (r: TaggedPointer)
        ensures
            r.raw == raw,
    {
        TaggedPointer { raw }
    }

    /// Returns a new tagged pointer with the given bit set.
    pub fn with_bit(raw: u64, bit: usize) -> (r: TaggedPointer)
        requires
            bit < 64,
        ensures
            r.raw == spec_with_bit(raw, bit as u64),
    {
        let mut pointer = Self::new(raw);
        pointer.set_bit(bit);
        pointer
    }

    /// Returns a null pointer.
    pub fn null() -> (r: TaggedPointer)
        ensures
            r.raw == 0,
    {
        TaggedPointer { raw: 0 }
    }

    /// Returns the wrapped word without any tags.
    pub fn untagged(self) -> (r: u64)
        ensures
            r == self.spec_untagged(),
    {
        untagged(self.raw)
    }

    /// Sets bit `bit` of the raw word to `x`.
    pub fn set_bit_x(&mut self, x: bool, bit: usize)
        requires
            bit < 64,
        ensures
            final (self).raw == (old(self).raw & !(1u64 << bit as u64)) | ((x as u64) << (
            bit as u64)),
    {
        self.raw = self.raw & !(1u64 << bit) | ((x as u64) << bit);
    }

    /// Flips bit `bit` and returns its previous value.
    pub fn toggle(&mut self, bit: usize) -> (r: bool)
        requires
            bit < 64,
        ensures
            final (self).raw == old(self).raw ^ (1u64 << bit as u64),
            r == old(self).spec_bit(bit as u64),
    {
        let x = self.bit_is_set(bit);
        self.raw = self.raw ^ (1u64 << bit);
        x
    }

    /// Clears bit `bit`.
    pub fn clear_bit(&mut self, bit: usize)
        requires
            bit < 64,
        ensures
            final (self).raw == spec_without_bit(old(self).raw, bit as u64),
    {
        self.raw = without_bit(self.raw, bit);
    }

    /// Returns a new tagged pointer carrying the current word without any
    /// tags.
    pub fn without_tags(self) -> (r: Self)
        ensures
            r.raw == self.spec_untagged(),
    {
        Self::new(self.untagged())
    }

    /// Returns true if the given bit is set.
    pub fn bit_is_set(self, bit: usize) -> (r: bool)
        requires
            bit < 64,
        ensures
            r == self.spec_bit(bit as u64),
    {
        bit_is_set(self.raw, bit)
    }

    /// Sets the given bit.
    pub fn set_bit(&mut self, bit: usize)
        requires
            bit < 64,
        ensures
            final (self).raw == spec_with_bit(old(self).raw, bit as u64),
    {
        self.raw = with_bit(self.raw, bit);
    }

    /// Returns true if the untagged word is zero.
    pub fn is_null(self) -> (r: bool)
        ensures
            r == (self.spec_untagged() == 0),
    {
        self.untagged() == 0
    }

    /// Replaces the word with `other` when it currently equals `current`;
    /// the sequential model of a compare-and-swap.
    pub fn compare_and_swap(&mut self, current: u64, other: u64) -> (r: bool)
        ensures
            r == (old(self).raw == current),
            final (self).raw == if old(self).raw == current {
                other
            } else {
                old(self).raw
            },
    {
        if self.raw == current {
            self.raw = other;
            true
        } else {
            false
        }
    }

    /// Replaces the word with the given one; the sequential model of an
    /// atomic store.
    pub fn atomic_store(&mut self, other: u64)
        ensures
            final (self).raw == other,
    {
        self.raw = other;
    }

    /// Reads the word; the sequential model of an atomic load.
    pub fn atomic_load(&self) -> (r: u64)
        ensures
            r == self.raw,
    {
        self.raw
    }

    /// Checks if a bit is set on a freshly loaded word.
    pub fn atomic_bit_is_set(&self, bit: usize) -> (r: bool)
        requires
            bit < 64,
        ensures
            r == self.spec_bit(bit as u64),
    {
        Self::new(self.atomic_load()).bit_is_set(bit)
    }
}

/// Rounds `x` down by clearing the bits of `n`; when `n + 1` is a power of
/// two this is rounding down to a multiple of `n + 1`.
pub fn round_down(x: u64, n: u64) -> (r: u64)
    ensures
        r == (x & !n),
{
    x & !n
}

/// Rounds `x` up to the next multiple of `n + 1`, for `n + 1` a power of
/// two.
pub fn round_up(x: u64, n: u64) -> (r: u64)
    requires
        n >= 1,
        x + n <= u64::MAX,
    ensures
        r == ((x + n - 1) as u64 & !n),
{
    round_down(x + n - 1, n)
}

/// An opaque machine-word-sized integer standing for a raw pointer, with
/// convenience offsets; comparable against null.
#[derive(Clone, Copy, PartialEq, Eq, Structural, Debug)]
pub struct Address(usize);

impl View for Address {
    type V = usize;

    closed spec fn view(&self) -> usize {
        self.0
    }
}

impl Address {
    /// Builds an address from its integer value.
    pub fn from(val: usize) -> (r: Address)
        ensures
            r@ == val,
    {
        Address(val)
    }

    /// The region of `size` bytes that starts at this address.
    pub fn region_start(self, size: usize) -> (r: Region)
        requires
            self@ + size <= usize::MAX,
        ensures
            r.start@ == self@,
            r.end@ == self@ + size,
    {
        Region::new(self, self.offset(size))
    }

    /// How many bytes this address lies above `base`.
    pub fn offset_from(self, base: Address) -> (r: usize)
        requires
            base@ <= self@,
        ensures
            r == self@ - base@,
    {
        self.to_usize() - base.to_usize()
    }

    /// The address `offset` bytes above this one.
    pub fn offset(self, offset: usize) -> (r: Address)
        requires
            self@ + offset <= usize::MAX,
        ensures
            r@ == self@ + offset,
    {
        Address(self.0 + offset)
    }

    /// The address `offset` bytes below this one.
    pub fn sub(self, offset: usize) -> (r: Address)
        requires
            offset <= self@,
        ensures
            r@ == self@ - offset,
    {
        Address(self.0 - offset)
    }

    /// The address `words` machine words above this one.
    pub fn add_ptr(self, words: usize) -> (r: Address)
        requires
            self@ + words * 8 <= usize::MAX,
        ensures
            r@ == self@ + words * 8,
    {
        Address(self.0 + words * 8)
    }

    /// The address `words` machine words below this one.
    pub fn sub_ptr(self, words: usize) -> (r: Address)
        requires
            words * 8 <= self@,
        ensures
            r@ == self@ - words * 8,
    {
        Address(self.0 - words * 8)
    }

    /// The integer value of the address.
    pub fn to_usize(self) -> (r: usize)
        ensures
            r == self@,
    {
        self.0
    }

    /// The null address.
    pub fn null() -> (r: Address)
        ensures
            r@ == 0,
    {
        Address(0)
    }

    /// Whether this is the null address.
    pub fn is_null(self) -> (r: bool)
        ensures
            r == (self@ == 0),
    {
        self.0 == 0
    }

    /// Whether this is not the null address.
    pub fn is_non_null(self) -> (r: bool)
        ensures
            r == (self@ != 0),
    {
        self.0 != 0
    }
}

/// A half-open range of addresses.
#[derive(Clone, Copy)]
pub struct Region {
    /// First address of the region.
    pub start: Address,
    /// First address past the region.
    pub end: Address,
}

impl Region {
    /// Whether the region's bounds are ordered.
    pub open spec fn wf(&self) -> bool {
        self.start@ <= self.end@
    }

    /// Builds the region from `start` to `end`.
    pub fn new(start: Address, end: Address) -> (r: Region)
        requires
            start@ <= end@,
        ensures
            r.start == start,
            r.end == end,
            r.wf(),
    {
        Region { start, end }
    }

    /// Whether `addr` lies inside the region.
    pub fn contains(&self, addr: Address) -> (r: bool)
        ensures
            r == (self.start@ <= addr@ < self.end@),
    {
        self.start.to_usize() <= addr.to_usize() && addr.to_usize() < self.end.to_usize()
    }

    /// Whether `addr` lies inside the region or just past it.
    pub fn valid_top(&self, addr: Address) -> (r: bool)
        ensures
            r == (self.start@ <= addr@ <= self.end@),
    {
        self.start.to_usize() <= addr.to_usize() && addr.to_usize() <= self.end.to_usize()
    }

    /// The region's size in bytes.
    pub fn size(&self) -> (r: usize)
        requires
            self.wf(),
        ensures
            r == self.end@ - self.start@,
    {
        self.end.to_usize() - self.start.to_usize()
    }

    /// Whether the region holds no bytes.
    pub fn empty(&self) -> (r: bool)
        ensures
            r == (self.start@ == self.end@),
    {
        self.start.to_usize() == self.end.to_usize()
    }

    /// Whether this region and `other` have no byte in common.
    pub fn disjunct(&self, other: &Region) -> (r: bool)
        ensures
            r == (self.end@ <= other.start@ || self.start@ >= other.end@),
    {
        self.end.to_usize() <= other.start.to_usize() || self.start.to_usize()
            >= other.end.to_usize()
    }

    /// Whether this region and `other` share at least one byte.
    pub fn overlaps(&self, other: &Region) -> (r: bool)
        ensures
            r == !(self.end@ <= other.start@ || self.start@ >= other.end@),
    {
        !self.disjunct(other)
    }

    /// Whether `other` lies entirely inside this region.
    pub fn fully_contains(&self, other: &Region) -> (r: bool)
        ensures
            r == (self.start@ <= other.start@ < self.end@ && self.start@ <= other.end@
                <= self.end@),
    {
        self.contains(other.start) && self.valid_top(other.end)
    }
}

impl Default for Region {
    /// The empty region at the null address.
    fn default() -> (r: Region)
        ensures
            r.start@ == 0,
            r.end@ == 0,
    {
        Region { start: Address::null(), end: Address::null() }
    }
}

/// A plain cell holding a copyable value.  The collector's sequential model
/// of a cell read and written with volatile accesses.
pub struct VolatileCell<T> {
    value: T,
}

impl<T: Copy> VolatileCell<T> {
    /// The current contents of the cell.
    pub closed spec fn spec_get(&self) -> T {
        self.value
    }

    /// Creates a new cell containing the given value.
    pub fn new(value: T) -> (r: Self)
        ensures
            r.spec_get() == value,
    {
        VolatileCell { value }
    }

    /// Returns a copy of the contained value.
    pub fn get(&self) -> (r: T)
        ensures
            r == self.spec_get(),
    {
        self.value
    }

    /// Sets the contained value.
    pub fn set(&mut self, value: T)
        ensures
            final (self).spec_get() == value,
    {
        self.value = value;
    }
}

/// A reentrant lock keyed by a nonzero thread identifier.  The sequential
/// model records the owner and an acquisition count; acquiring a lock held
/// by another thread would spin forever, so the contracts rule it out.
pub struct GCSpinLock {
    /// Identifier of the owning thread, zero when free.
    pub owner: VolatileCell<u64>,
    /// How many times the owner has acquired the lock.
    pub count: VolatileCell<u32>,
}

impl GCSpinLock {
    /// Either the lock is free or it is held, with a positive count, by a
    /// real thread.
    pub open spec fn wf(&self) -> bool {
        (self.owner.spec_get() == 0) == (self.count.spec_get() == 0)
    }

    /// Creates a free lock.
    pub fn new() -> (r: Self)
        ensures
            r.owner.spec_get() == 0,
            r.count.spec_get() == 0,
            r.wf(),
    {
        GCSpinLock { owner: VolatileCell::new(0), count: VolatileCell::new(0) }
    }

    /// Acquires the lock for thread `this`, possibly reentrantly.
    fn wait(&mut self, this: u64)
        requires
            this != 0,
            old(self).wf(),
            old(self).owner.spec_get() == 0 || old(self).owner.spec_get() == this,
            old(self).count.spec_get() < u32::MAX,
        ensures
            final (self).wf(),
            final (self).owner.spec_get() == this,
            final (self).count.spec_get() == old(self).count.spec_get() + 1,
    {
        let owner = self.owner.get();
        if owner == this {
            let c = self.count.get();
            self.count.set(c + 1);
            return ;
        }
        self.owner.set(this);
        self.count.set(1);
    }

    /// Acquires the lock without yielding to the collector.
    pub fn lock_nogc(&mut self, this: u64)
        requires
            this != 0,
            old(self).wf(),
            old(self).owner.spec_get() == 0 || old(self).owner.spec_get() == this,
            old(self).count.spec_get() < u32::MAX,
        ensures
            final (self).wf(),
            final (self).owner.spec_get() == this,
            final (self).count.spec_get() == old(self).count.spec_get() + 1,
    {
        self.wait(this)
    }

    /// Acquires the lock, yielding to the collector while spinning.
    pub fn lock(&mut self, this: u64)
        requires
            this != 0,
            old(self).wf(),
            old(self).owner.spec_get() == 0 || old(self).owner.spec_get() == this,
            old(self).count.spec_get() < u32::MAX,
        ensures
            final (self).wf(),
            final (self).owner.spec_get() == this,
            final (self).count.spec_get() == old(self).count.spec_get() + 1,
    {
        self.wait(this)
    }

    /// Releases one acquisition of the lock.
    pub fn unlock(&mut self)
        requires
            old(self).wf(),
            old(self).count.spec_get() >= 1,
        ensures
            final (self).wf(),
            final (self).count.spec_get() == old(self).count.spec_get() - 1,
            final (self).count.spec_get() == 0 ==> final (self).owner.spec_get() == 0,
            final (self).count.spec_get() > 0 ==> final (self).owner.spec_get() == old(
                self,
            ).owner.spec_get(),
    {
        let c = self.count.get() - 1;
        self.count.set(c);
        if c == 0 {
            self.owner.set(0);
        }
    }

    /// Tries to acquire the lock for thread `this`; returns whether it
    /// succeeded.
    pub fn try_lock(&mut self, this: u64) -> (r: bool)
        requires
            this != 0,
            old(self).wf(),
            old(self).count.spec_get() < u32::MAX,
        ensures
            final (self).wf(),
            r == (old(self).owner.spec_get() == 0 || old(self).owner.spec_get() == this),
            r ==> final (self).owner.spec_get() == this && final (self).count.spec_get() == old(
                self,
            ).count.spec_get() + 1,
            !r ==> *final (self) == *old(self),
    {
        let owner = self.owner.get();
        if owner == this {
            let c = self.count.get();
            self.count.set(c + 1);
            return true;
        }
        if owner == 0 {
            self.owner.set(this);
            self.count.set(1);
            return true;
        }
        false
    }
}

} // verus!
