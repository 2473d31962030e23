//! The large-object space.
//!
//! Objects of `LARGE_OBJECT` bytes and more each get their own allocation:
//! a padded per-object header (`PreciseAllocation`) followed by the cell.
//! The header padding keeps every cell address aligned to 8 bytes but not
//! to 16, so a single bit test on the low bits distinguishes a large-object
//! cell from any Immix-space pointer, which is always 16-byte aligned.
//! The space keeps its allocations sorted by address so that membership
//! can be decided by a bounds check and a binary search.

use vstd::prelude::*;

use crate::object::GCRTTI;
use crate::object::RawGc;
use crate::util::Address;
use crate::util::lemma_untagged;
use crate::util::TaggedPointer;

verus! {

/// Byte size of the padded per-object header: the header record rounded up
/// to 8 bytes, with the 8-bit forced so that the cell lands on an odd
/// multiple of 8.
pub const PRECISE_HEADER_SIZE: usize = 24;

/// Alignment of every Immix-space allocation.
pub const PRECISE_ALIGNMENT: usize = 16;

/// Alignment of the cell addresses this space hands out; the distinguishing
/// low bit.
pub const PRECISE_HALF_ALIGNMENT: usize = 8;

/// Whether `p` carries the large-object tag: aligned to 8 bytes but not to
/// 16.
pub open spec fn spec_is_precise(p: int) -> bool {
    p % 16 >= 8
}

/// A large-object allocation: the per-object header preceding one cell.
pub struct PreciseAllocation {
    /// Address of this header record; always 16-byte aligned.
    pub at: usize,
    /// Requested size of the cell in bytes.
    pub cell_size: usize,
    /// Whether the latest mark phase reached this cell.
    pub is_marked: bool,
    /// Position of this allocation in the space when it was created.
    pub index_in_space: u32,
    /// Whether the backing allocation had to be shifted by 8 bytes to
    /// align this record to 16.
    pub adjusted_alignment: bool,
    /// Whether the cell still holds an object.
    pub has_valid_cell: bool,
    /// The cell's header word.
    pub header: u64,
    /// The cell's payload, one entry per 8-byte word.
    pub words: Vec<u64>,
}

impl PreciseAllocation {
    /// The cell address: right after the padded header, 8-but-not-16
    /// aligned.
    pub open spec fn spec_cell(&self) -> int {
        self.at + PRECISE_HEADER_SIZE
    }

    /// Structural well-formedness of one large-object allocation.
    pub open spec fn wf(&self) -> bool {
        &&& self.at % 16 == 0
        &&& self.at > 0
        &&& self.cell_size % 16 == 0
        &&& self.cell_size > 0
        &&& self.at + PRECISE_HEADER_SIZE + self.cell_size + 16 <= usize::MAX
        &&& self.words@.len() == self.cell_size / 8
    }

    /// Checks whether `addr` carries the large-object tag.
    pub fn is_precise(addr: Address) -> (r: bool)
        ensures
            r == spec_is_precise(addr@ as int),
    {
        let p = addr.to_usize();
        let r = (p & PRECISE_HALF_ALIGNMENT) != 0;
        proof {
            assert((p & 8) != 0 <==> p as int % 16 >= 8) by (bit_vector);
        }
        r
    }

    /// The address of the allocation header that would precede a cell at
    /// `ptr`.
    pub fn from_cell(ptr: Address) -> (r: Address)
        requires
            ptr@ >= PRECISE_HEADER_SIZE,
        ensures
            r@ == ptr@ - PRECISE_HEADER_SIZE,
    {
        ptr.sub(PRECISE_HEADER_SIZE)
    }

    /// Size of the padded allocation header.
    pub fn header_size() -> (r: usize)
        ensures
            r == PRECISE_HEADER_SIZE,
            r % 16 == PRECISE_HALF_ALIGNMENT as int,
    {
        PRECISE_HEADER_SIZE
    }

    /// The start of the backing allocation this header lives in.
    pub fn base_pointer(&self) -> (r: usize)
        requires
            self.wf(),
        ensures
            r == if self.adjusted_alignment {
                self.at - PRECISE_HALF_ALIGNMENT
            } else {
                self.at as int
            },
    {
        if self.adjusted_alignment {
            proof {
                assert(self.at >= 16);
            }
            self.at - PRECISE_HALF_ALIGNMENT
        } else {
            self.at
        }
    }

    /// The cell address of this allocation; always tagged as a large
    /// object.
    pub fn cell(&self) -> (r: Address)
        requires
            self.wf(),
        ensures
            r@ == self.spec_cell(),
            spec_is_precise(r@ as int),
    {
        proof {
            assert((self.at + 24) % 16 >= 8) by (nonlinear_arith)
                requires
                    self.at % 16 == 0,
                    self.at + 24 <= usize::MAX,
                    self.at >= 0,
            ;
        }
        Address::from(self.at + PRECISE_HEADER_SIZE)
    }

    /// Clears the mark.
    pub fn clear_marked(&mut self)
        ensures
            *final (self) == (PreciseAllocation { is_marked: false, ..*old(self) }),
    {
        self.is_marked = false;
    }

    /// Whether the cell is marked.
    pub fn is_marked(&self) -> (r: bool)
        ensures
            r == self.is_marked,
    {
        self.is_marked
    }

    /// Marks the cell; returns whether it was already marked.
    pub fn test_and_set_marked(&mut self) -> (r: bool)
        ensures
            *final (self) == (PreciseAllocation { is_marked: true, ..*old(self) }),
            r == old(self).is_marked,
    {
        if self.is_marked() {
            return true;
        }
        self.is_marked = true;
        false
    }

    /// Whether `addr` is at or above the cell start.
    pub fn above_lower_bound(&self, addr: Address) -> (r: bool)
        requires
            self.wf(),
        ensures
            r == (addr@ >= self.spec_cell()),
    {
        addr.to_usize() >= self.cell().to_usize()
    }

    /// Whether `addr` is within the cell's upper bound, one trailing
    /// word forgiven.
    pub fn below_upper_bound(&self, addr: Address) -> (r: bool)
        requires
            self.wf(),
        ensures
            r == (addr@ <= self.spec_cell() + self.cell_size + 8),
    {
        let begin = self.cell().to_usize();
        let end = begin + self.cell_size;
        addr.to_usize() <= end + 8
    }

    /// Whether this allocation's cell covers `addr`.
    pub fn contains(&self, addr: Address) -> (r: bool)
        requires
            self.wf(),
        ensures
            r == (self.spec_cell() <= addr@ <= self.spec_cell() + self.cell_size + 8),
    {
        self.above_lower_bound(addr) && self.below_upper_bound(addr)
    }

    /// Whether this cell is live (reached by the latest mark phase).
    pub fn is_live(&self) -> (r: bool)
        ensures
            r == self.is_marked,
    {
        self.is_marked()
    }

    /// Clears the mark bit for the next cycle.
    pub fn flip(&mut self)
        ensures
            *final (self) == (PreciseAllocation { is_marked: false, ..*old(self) }),
    {
        self.clear_marked();
    }

    /// Whether this cell is dead.
    pub fn is_empty(&self) -> (r: bool)
        ensures
            r == !self.is_marked,
    {
        !self.is_marked()
    }

    /// Invalidates a dead cell; returns false exactly when the cell was
    /// valid and unmarked, i.e. when the caller must destroy it.
    pub fn sweep(&mut self) -> (r: bool)
        ensures
            r == !(old(self).has_valid_cell && !old(self).is_marked),
            !r ==> *final (self) == (PreciseAllocation { has_valid_cell: false, ..*old(self) }),
            r ==> *final (self) == *old(self),
    {
        if self.has_valid_cell && !self.is_live() {
            self.has_valid_cell = false;
            return false;
        }
        true
    }

    /// Returns the requested cell size.
    pub fn cell_size(&self) -> (r: usize)
        ensures
            r == self.cell_size,
    {
        self.cell_size
    }

    /// Releases the allocation's backing memory.
    pub fn destroy(&mut self)
        ensures
            *final (self) == (PreciseAllocation { has_valid_cell: false, ..*old(self) }),
    {
        self.has_valid_cell = false;
    }

    /// Creates an allocation whose header sits at the first 16-byte-aligned
    /// address at or after `base`, recording whether the base had to be
    /// adjusted.
    pub fn try_create(base: usize, size: usize, index_in_space: u32) -> (r: Self)
        requires
            base % 8 == 0,
            base > 0,
            size % 16 == 0,
            size > 0,
            base + PRECISE_HEADER_SIZE + size + 24 <= usize::MAX,
        ensures
            r.wf(),
            r.cell_size == size,
            r.index_in_space == index_in_space,
            !r.is_marked,
            r.has_valid_cell,
            r.header == 0,
            r.adjusted_alignment == (base % 16 != 0),
            r.at == base + if base % 16 != 0 {
                8int
            } else {
                0int
            },
            // The fresh payload is zeroed.
            forall|w: int| 0 <= w < r.words@.len() ==> r.words@[w] == 0,
    {
        let mut space = base;
        let mut adjusted_alignment = false;
        if !is_aligned_for_precise_allocation(space) {
            proof {
                assert(base % 16 == 8) by (nonlinear_arith)
                    requires
                        base % 8 == 0,
                        base % 16 != 0,
                        base >= 0,
                ;
                assert((base + 8) % 16 == 0) by (nonlinear_arith)
                    requires
                        base % 16 == 8,
                        base >= 0,
                ;
            }
            space = space + PRECISE_HALF_ALIGNMENT;
            adjusted_alignment = true;
        }
        let mut words: Vec<u64> = Vec::new();
        let n = size / 8;
        let mut i: usize = 0;
        while i < n
            invariant
                i == words@.len(),
                i <= n,
                forall|w: int| 0 <= w < i ==> words@[w] == 0,
            decreases n - i,
        {
            words.push(0);
            i = i + 1;
        }
        PreciseAllocation {
            at: space,
            cell_size: size,
            is_marked: false,
            index_in_space,
            adjusted_alignment,
            has_valid_cell: true,
            header: 0,
            words,
        }
    }
}

/// Checks whether `mem` is aligned as a large-object header must be.
pub fn is_aligned_for_precise_allocation(mem: usize) -> (r: bool)
    ensures
        r == (mem % 16 == 0),
{
    let r = (mem & (PRECISE_ALIGNMENT - 1)) == 0;
    proof {
        assert((mem & 15) == 0 <==> mem as int % 16 == 0) by (bit_vector);
    }
    r
}

/// The bytes held by the unmarked cells among the first `upto` of
/// `allocs`.
pub open spec fn dead_bytes(allocs: Seq<PreciseAllocation>, upto: int) -> int
    decreases upto,
{
    if upto <= 0 {
        0
    } else {
        dead_bytes(allocs, upto - 1) + if !allocs[upto - 1].is_marked {
            allocs[upto - 1].cell_size as int
        } else {
            0int
        }
    }
}

/// Whether header word `h` encodes a descriptor in `rttis` whose type
/// runs a finalizer: an unforwarded, in-table descriptor with the flag.
pub open spec fn spec_has_finalizer(rttis: Seq<GCRTTI>, h: u64) -> bool {
    &&& crate::util::spec_untagged(h) >= 8
    &&& crate::util::spec_untagged(h) % 8 == 0
    &&& crate::util::spec_untagged(h) <= usize::MAX
    &&& !crate::util::spec_bit_is_set(h, 1)
    &&& crate::util::spec_untagged(h) as int / 8 - 1 < rttis.len()
    &&& rttis[crate::util::spec_untagged(h) as int / 8 - 1].finalizer
}

/// Whether entry `k` of the swept allocation list descends from a marked
/// entry of the list before the sweep, with everything but the mark intact.
pub open spec fn survives_from(new: Seq<PreciseAllocation>, orig: Seq<PreciseAllocation>, k: int) -> bool {
    exists|i: int|
        0 <= i < orig.len() && orig[i].is_marked && new[k].at == orig[i].at && new[k].cell_size
            == orig[i].cell_size && new[k].header == orig[i].header && new[k].words
            == orig[i].words
}

/// The space for objects too large for line allocation: a list of
/// per-object allocations kept sorted by address.
pub struct LargeObjectSpace {
    /// The live allocations, sorted by header address.
    pub allocations: Vec<PreciseAllocation>,
    /// The polarity that freshly allocated headers are marked with.
    pub current_live_mark: bool,
    /// Next base address the space's backing allocator hands out.
    pub alloc_cursor: usize,
}

impl LargeObjectSpace {
    /// Whether `p` is the cell address of allocation `i`.
    pub open spec fn cell_at(&self, i: int, p: int) -> bool {
        0 <= i < self.allocations@.len() && self.allocations@[i].at + PRECISE_HEADER_SIZE == p
    }

    /// Whether `p` is the cell address of some live allocation.
    pub open spec fn spec_contains(&self, p: int) -> bool {
        exists|i: int| self.cell_at(i, p)
    }

    /// All allocations are well-formed and valid, strictly ordered and
    /// disjoint, and lie below the allocation cursor.
    pub open spec fn wf(&self) -> bool {
        &&& forall|i: int|
            0 <= i < self.allocations@.len() ==> (#[trigger] self.allocations@[i]).wf()
                && self.allocations@[i].has_valid_cell
        &&& forall|i: int, j: int|
            0 <= i < j < self.allocations@.len() ==> #[trigger] self.allocations@[i].at
                + PRECISE_HEADER_SIZE + self.allocations@[i].cell_size + 8 <= #[trigger] self.allocations@[j].at
        &&& forall|i: int|
            0 <= i < self.allocations@.len() ==> (#[trigger] self.allocations@[i]).at
                + PRECISE_HEADER_SIZE + self.allocations@[i].cell_size + 8 <= self.alloc_cursor
        &&& self.alloc_cursor % 16 == 0
        &&& self.alloc_cursor > 0
    }

    /// Creates an empty space whose backing allocator starts handing out
    /// addresses at `base`.
    pub fn new(base: usize) -> (r: Self)
        requires
            base % 16 == 0,
            base > 0,
        ensures
            r.wf(),
            r.allocations@.len() == 0,
            !r.current_live_mark,
            r.alloc_cursor == base,
    {
        LargeObjectSpace { allocations: Vec::new(), current_live_mark: false, alloc_cursor: base }
    }

    /// At most one allocation's cell sits at any address: the sorted,
    /// disjoint list never repeats a header address.
    pub proof fn lemma_cell_at_unique(&self, a: int)
        requires
            self.wf(),
        ensures
            forall|c1: int, c2: int|
                self.cell_at(c1, a) && self.cell_at(c2, a) ==> c1 == c2,
    {
        assert forall|c1: int, c2: int|
            self.cell_at(c1, a) && self.cell_at(c2, a) implies c1 == c2 by {
            if c1 < c2 {
                assert(self.allocations@[c1].at + PRECISE_HEADER_SIZE
                    + self.allocations@[c1].cell_size + 8 <= self.allocations@[c2].at);
                assert(self.allocations@[c1].wf());
            }
            if c2 < c1 {
                assert(self.allocations@[c2].at + PRECISE_HEADER_SIZE
                    + self.allocations@[c2].cell_size + 8 <= self.allocations@[c1].at);
                assert(self.allocations@[c2].wf());
            }
        }
    }

    /// Cell addresses sit exactly eight past a sixteen-byte boundary, so
    /// any address the space contains carries the half-alignment tag.
    pub proof fn lemma_cells_half_aligned(&self, p: int)
        requires
            self.wf(),
        ensures
            self.spec_contains(p) ==> p % 16 == 8,
    {
        if self.spec_contains(p) {
            let i = choose|i: int| self.cell_at(i, p);
            assert(self.allocations@[i].wf());
            assert(p % 16 == 8) by (nonlinear_arith)
                requires
                    self.allocations@[i].at % 16 == 0,
                    p == self.allocations@[i].at + PRECISE_HEADER_SIZE,
                    PRECISE_HEADER_SIZE == 24,
            ;
        }
    }

    /// Looks up the allocation whose cell sits at `p`, by a bounds check
    /// and a binary search over the sorted list.
    pub fn find_cell(&self, p: Address) -> (r: Option<usize>)
        requires
            self.wf(),
        ensures
            r matches Some(i) ==> self.cell_at(i as int, p@ as int),
            r is None ==> !self.spec_contains(p@ as int),
    {
        let n = self.allocations.len();
        if n == 0 {
            return None;
        }
        if !self.allocations[0].above_lower_bound(p) {
            proof {
                assert forall|i: int| 0 <= i < n implies !self.cell_at(i, p@ as int) by {
                    assert(self.allocations@[0].at <= self.allocations@[i].at);
                }
            }
            return None;
        }
        // The sought header address.
        let target = p.to_usize() - PRECISE_HEADER_SIZE;
        let ghost t = target as int;
        let mut lo: usize = 0;
        let mut hi: usize = n;
        while lo < hi
            invariant
                self.wf(),
                n == self.allocations@.len(),
                lo <= hi <= n,
                forall|i: int| 0 <= i < lo ==> #[trigger] self.allocations@[i].at < t,
                forall|i: int| hi <= i < n ==> #[trigger] self.allocations@[i].at > t,
                t == p@ - PRECISE_HEADER_SIZE,
                t == target as int,
            decreases hi - lo,
        {
            let mid = lo + (hi - lo) / 2;
            let a = self.allocations[mid].at;
            if a == target {
                return Some(mid);
            } else if a < target {
                proof {
                    assert forall|i: int| 0 <= i < mid + 1 implies #[trigger] self.allocations@[i].at
                        < t by {
                        if i < mid {
                            assert(self.allocations@[i].at + PRECISE_HEADER_SIZE
                                + self.allocations@[i].cell_size + 8 <= self.allocations@[mid as int].at);
                        }
                    }
                }
                lo = mid + 1;
            } else {
                proof {
                    assert forall|i: int| mid <= i < n implies #[trigger] self.allocations@[i].at
                        > t by {
                        if i > mid {
                            assert(self.allocations@[mid as int].at + PRECISE_HEADER_SIZE
                                + self.allocations@[mid as int].cell_size + 8 <= self.allocations@[i].at);
                        }
                    }
                }
                hi = mid;
            }
        }
        proof {
            assert forall|i: int| 0 <= i < n implies !self.cell_at(i, p@ as int) by {
                assert(self.allocations@[i].at != t);
            }
        }
        None
    }

    /// Whether `p` refers to a live large-object cell.
    pub fn contains(&self, p: Address) -> (r: bool)
        requires
            self.wf(),
        ensures
            r == self.spec_contains(p@ as int),
    {
        match self.find_cell(p) {
            Some(_) => true,
            None => false,
        }
    }

    /// Allocates a cell of `size` bytes with the header word for `vtable`,
    /// marked with the space's current polarity.  Returns the cell address,
    /// or null once the address space is exhausted.
    pub fn allocate(&mut self, size: usize, vtable: usize) -> (r: Address)
        requires
            old(self).wf(),
            size % 16 == 0,
            size > 0,
            vtable % 8 == 0,
            vtable >= 8,
        ensures
            final (self).wf(),
            r@ == 0 <==> (old(self).alloc_cursor + PRECISE_HEADER_SIZE + size + 24 > usize::MAX
                || old(self).allocations@.len() >= u32::MAX),
            r@ == 0 ==> *final (self) == *old(self),
            r@ != 0 ==> {
                &&& r@ == old(self).alloc_cursor + PRECISE_HEADER_SIZE
                &&& spec_is_precise(r@ as int)
                &&& final (self).spec_contains(r@ as int)
                &&& final (self).allocations@.len() == old(self).allocations@.len() + 1
                &&& final (self).allocations@.subrange(
                    0,
                    old(self).allocations@.len() as int,
                ) == old(self).allocations@
                &&& {
                    let a = final (self).allocations@.last();
                    &&& a.at == old(self).alloc_cursor
                    &&& a.cell_size == size
                    &&& !a.is_marked
                    &&& a.has_valid_cell
                    &&& crate::util::spec_untagged(a.header) == vtable
                    &&& crate::util::spec_bit_is_set(a.header, 0) == old(self).current_live_mark
                    &&& !crate::util::spec_bit_is_set(a.header, 1)
                }
            },
            final (self).current_live_mark == old(self).current_live_mark,
    {
        if self.alloc_cursor > usize::MAX - 48 || size > usize::MAX - 48 - self.alloc_cursor
            || self.allocations.len() >= u32::MAX as usize {
            return Address::null();
        }
        let ix = self.allocations.len() as u32;
        let base = self.alloc_cursor;
        let mut cell = PreciseAllocation::try_create(base, size, ix);
        proof {
            assert(cell.at == base);
        }
        let mut header = RawGc::new(vtable);
        proof {
            lemma_untagged(vtable as u64, 0);
        }
        header.mark(self.current_live_mark);
        cell.header = header.vtable.raw;
        let r = cell.cell();
        self.alloc_cursor = base + (PRECISE_HEADER_SIZE + size + 8);
        proof {
            assert((base + 32 + size) % 16 == 0) by (nonlinear_arith)
                requires
                    base % 16 == 0,
                    size % 16 == 0,
                    base >= 0,
                    size >= 0,
            ;
        }
        self.allocations.push(cell);
        proof {
            assert(self.allocations@.subrange(0, old(self).allocations@.len() as int) =~= old(
                self,
            ).allocations@);
            assert(self.cell_at(self.allocations@.len() - 1, r@ as int));
        }
        r
    }

    /// Sweeps the space: every valid cell that the latest mark phase did
    /// not reach is destroyed, its finalizer (when its type has one) is
    /// recorded in `finalized`, and its bytes are returned; survivors have
    /// their mark cleared for the next cycle.
    #[verifier::rlimit(100)]
    pub fn sweep(&mut self, rttis: &Vec<GCRTTI>, finalized: &mut Vec<usize>) -> (swept: usize)
        requires
            old(self).wf(),
        ensures
            final (self).wf(),
            // The returned total is the bytes of the destroyed cells,
            // saturating at the machine limit.
            swept as int == if dead_bytes(old(self).allocations@, old(self).allocations@.len() as int)
                <= usize::MAX {
                dead_bytes(old(self).allocations@, old(self).allocations@.len() as int)
            } else {
                usize::MAX as int
            },
            final (self).current_live_mark == old(self).current_live_mark,
            final (self).alloc_cursor == old(self).alloc_cursor,
            // Survivors are exactly the marked cells, in order, with the
            // mark cleared.
            forall|k: int|
                0 <= k < final (self).allocations@.len() ==> !(
                #[trigger] final (self).allocations@[k]).is_marked,
            forall|k: int|
                0 <= k < final (self).allocations@.len() ==> #[trigger] survives_from(
                    final (self).allocations@,
                    old(self).allocations@,
                    k,
                ),
            // Every marked cell survives.
            forall|i: int|
                0 <= i < old(self).allocations@.len() && (
                #[trigger] old(self).allocations@[i]).is_marked ==> exists|k: int|
                    0 <= k < final (self).allocations@.len() && final (self).allocations@[k].at
                        == old(self).allocations@[i].at,
            // The finalizer log only grows.
            final (finalized)@.len() >= old(finalized)@.len(),
            final (finalized)@.subrange(0, old(finalized)@.len() as int) == old(finalized)@,
            // A dead cell whose type runs a finalizer is recorded in the
            // log under its cell address.
            forall|i: int|
                0 <= i < old(self).allocations@.len() ==> {
                    let a = #[trigger] old(self).allocations@[i];
                    (!a.is_marked && spec_has_finalizer(rttis@, a.header)) ==> exists|jj: int|
                        old(finalized)@.len() <= jj < final (finalized)@.len() && final (finalized)@[jj] == a.at + PRECISE_HEADER_SIZE
                },
    {
        let ghost orig = self.allocations@;
        let n = self.allocations.len();
        let mut kept: Vec<PreciseAllocation> = Vec::new();
        let ghost mut picked: Seq<int> = Seq::empty();
        let mut swept: usize = 0;
        let mut j: usize = 0;
        while j < n
            invariant
                n == orig.len(),
                j <= n,
                self.allocations@ == orig.subrange(j as int, n as int),
                forall|i: int| 0 <= i < orig.len() ==> (#[trigger] orig[i]).wf() && orig[i].has_valid_cell,
                forall|i: int, k: int|
                    0 <= i < k < orig.len() ==> #[trigger] orig[i].at + PRECISE_HEADER_SIZE
                        + orig[i].cell_size + 8 <= #[trigger] orig[k].at,
                forall|i: int|
                    0 <= i < orig.len() ==> (#[trigger] orig[i]).at + PRECISE_HEADER_SIZE
                        + orig[i].cell_size + 8 <= self.alloc_cursor,
                self.alloc_cursor == old(self).alloc_cursor,
                self.current_live_mark == old(self).current_live_mark,
                picked.len() == kept@.len(),
                forall|k: int| 0 <= k < picked.len() ==> 0 <= #[trigger] picked[k] < j,
                forall|k: int, l: int| 0 <= k < l < picked.len() ==> picked[k] < picked[l],
                forall|k: int|
                    0 <= k < kept@.len() ==> {
                        &&& orig[(#[trigger] picked[k])].is_marked
                        &&& kept@[k].at == orig[picked[k]].at
                        &&& kept@[k].cell_size == orig[picked[k]].cell_size
                        &&& kept@[k].header == orig[picked[k]].header
                        &&& kept@[k].words == orig[picked[k]].words
                        &&& kept@[k].has_valid_cell == orig[picked[k]].has_valid_cell
                        &&& !kept@[k].is_marked
                    },
                forall|i: int|
                    0 <= i < j && (#[trigger] orig[i]).is_marked ==> exists|k: int|
                        0 <= k < kept@.len() && kept@[k].at == orig[i].at,
                finalized@.len() >= old(finalized)@.len(),
                finalized@.subrange(0, old(finalized)@.len() as int) == old(finalized)@,
                swept as int == if dead_bytes(orig, j as int) <= usize::MAX {
                    dead_bytes(orig, j as int)
                } else {
                    usize::MAX as int
                },
                forall|i: int|
                    0 <= i < j ==> {
                        let a = #[trigger] orig[i];
                        (!a.is_marked && spec_has_finalizer(rttis@, a.header)) ==> exists|jj: int|
                            old(finalized)@.len() <= jj < finalized@.len() && finalized@[jj]
                                == a.at + PRECISE_HEADER_SIZE
                    },
            decreases n - j,
        {
            let mut a = self.allocations.remove(0);
            proof {
                assert(a == orig[j as int]);
            }
            let retain = a.sweep();
            if !retain {
                // The cell dies: record its finalizer and return its bytes.
                let ghost fin0 = finalized@;
                let vt = crate::util::untagged(a.header);
                if vt >= 8 && vt % 8 == 0 && !crate::util::bit_is_set(a.header, 1) {
                    let idx = (vt / 8 - 1) as usize;
                    if idx < rttis.len() && rttis[idx].finalizer {
                        finalized.push(a.cell().to_usize());
                        proof {
                            assert(finalized@ == fin0.push((a.at + PRECISE_HEADER_SIZE) as usize));
                            assert(finalized@.subrange(0, old(finalized)@.len() as int) =~= old(
                                finalized,
                            )@);
                        }
                    }
                }
                proof {
                    assert forall|i: int|
                        0 <= i < j + 1 implies {
                        let ai = #[trigger] orig[i];
                        (!ai.is_marked && spec_has_finalizer(rttis@, ai.header)) ==> exists|
                            jj: int,
                        |
                            old(finalized)@.len() <= jj < finalized@.len() && finalized@[jj]
                                == ai.at + PRECISE_HEADER_SIZE
                    } by {
                        let ai = orig[i];
                        if !ai.is_marked && spec_has_finalizer(rttis@, ai.header) {
                            if i == j {
                                assert(finalized@[finalized@.len() - 1] == ai.at
                                    + PRECISE_HEADER_SIZE);
                            } else {
                                let jj = choose|jj: int|
                                    old(finalized)@.len() <= jj < fin0.len() && fin0[jj] == ai.at
                                        + PRECISE_HEADER_SIZE;
                                assert(finalized@[jj] == fin0[jj]);
                            }
                        }
                    }
                }
                swept = if swept <= usize::MAX - a.cell_size {
                    swept + a.cell_size
                } else {
                    usize::MAX
                };
                a.destroy();
            } else {
                a.clear_marked();
                let ghost picked0 = picked;
                let ghost kept0 = kept@;
                proof {
                    assert(a == (PreciseAllocation { is_marked: false, ..orig[j as int] }));
                    picked = picked.push(j as int);
                }
                kept.push(a);
                proof {
                    assert(kept@.last() == a);
                    assert(picked.last() == j as int);
                    assert forall|k: int|
                        0 <= k < kept@.len() implies {
                        &&& orig[(#[trigger] picked[k])].is_marked
                        &&& kept@[k].at == orig[picked[k]].at
                        &&& kept@[k].cell_size == orig[picked[k]].cell_size
                        &&& kept@[k].header == orig[picked[k]].header
                        &&& kept@[k].words == orig[picked[k]].words
                        &&& kept@[k].has_valid_cell == orig[picked[k]].has_valid_cell
                        &&& !kept@[k].is_marked
                    } by {
                        if k < kept0.len() {
                            assert(picked[k] == picked0[k]);
                            assert(kept@[k] == kept0[k]);
                        } else {
                            assert(picked[k] == j as int);
                            assert(kept@[k] == a);
                        }
                    }
                    assert forall|i: int|
                        0 <= i < j + 1 && (#[trigger] orig[i]).is_marked implies exists|k: int|
                        0 <= k < kept@.len() && kept@[k].at == orig[i].at by {
                        if i == j {
                            assert(kept@[kept@.len() - 1].at == orig[i].at);
                        } else {
                            let k = choose|k: int|
                                0 <= k < kept0.len() && kept0[k].at == orig[i].at;
                            assert(kept@[k] == kept0[k]);
                            assert(kept@[k].at == orig[i].at);
                        }
                    }
                }
            }
            j = j + 1;
            proof {
                assert(self.allocations@ =~= orig.subrange(j as int, n as int));
            }
        }
        self.allocations = kept;
        proof {
            assert forall|k: int|
                0 <= k < self.allocations@.len() implies (#[trigger] self.allocations@[k]).wf()
                && self.allocations@[k].has_valid_cell && self.allocations@[k].at
                + PRECISE_HEADER_SIZE + self.allocations@[k].cell_size + 8 <= self.alloc_cursor
                && !self.allocations@[k].is_marked by {
                let i = picked[k];
                assert(orig[i].wf());
                assert(self.allocations@[k].at == orig[i].at && self.allocations@[k].cell_size
                    == orig[i].cell_size && self.allocations@[k].words == orig[i].words);
            }
            assert forall|k: int|
                0 <= k < self.allocations@.len() implies #[trigger] survives_from(
                self.allocations@,
                orig,
                k,
            ) by {
                let i = picked[k];
                assert(0 <= i < orig.len() && orig[i].is_marked && self.allocations@[k].at
                    == orig[i].at && self.allocations@[k].cell_size == orig[i].cell_size
                    && self.allocations@[k].header == orig[i].header && self.allocations@[k].words
                    == orig[i].words);
            }
            assert forall|k: int, l: int|
                0 <= k < l < self.allocations@.len() implies #[trigger] self.allocations@[k].at
                + PRECISE_HEADER_SIZE + self.allocations@[k].cell_size + 8
                <= #[trigger] self.allocations@[l].at by {
                assert(picked[k] < picked[l]);
            }
        }
        swept
    }

    /// Reads the header word of allocation `i`.
    pub fn header_of(&self, i: usize) -> (r: u64)
        requires
            self.wf(),
            i < self.allocations@.len(),
        ensures
            r == self.allocations@[i as int].header,
    {
        self.allocations[i].header
    }

    /// Writes the header word of allocation `i`.
    pub fn set_header_of(&mut self, i: usize, w: u64)
        requires
            old(self).wf(),
            i < old(self).allocations@.len(),
        ensures
            final (self).wf(),
            final (self).allocations@ == old(self).allocations@.update(
                i as int,
                (PreciseAllocation { header: w, ..old(self).allocations@[i as int] }),
            ),
            final (self).current_live_mark == old(self).current_live_mark,
            final (self).alloc_cursor == old(self).alloc_cursor,
    {
        let a = &mut self.allocations[i];
        a.header = w;
    }

    /// Marks allocation `i` as reached; returns whether it already was.
    pub fn mark_cell(&mut self, i: usize) -> (r: bool)
        requires
            old(self).wf(),
            i < old(self).allocations@.len(),
        ensures
            final (self).wf(),
            r == old(self).allocations@[i as int].is_marked,
            final (self).allocations@ == old(self).allocations@.update(
                i as int,
                (PreciseAllocation { is_marked: true, ..old(self).allocations@[i as int] }),
            ),
            final (self).current_live_mark == old(self).current_live_mark,
            final (self).alloc_cursor == old(self).alloc_cursor,
    {
        let a = &mut self.allocations[i];
        a.test_and_set_marked()
    }

    /// Takes the mark off allocation `i`.
    pub fn unmark_cell(&mut self, i: usize)
        requires
            old(self).wf(),
            i < old(self).allocations@.len(),
        ensures
            final (self).wf(),
            final (self).allocations@ == old(self).allocations@.update(
                i as int,
                (PreciseAllocation { is_marked: false, ..old(self).allocations@[i as int] }),
            ),
            final (self).current_live_mark == old(self).current_live_mark,
            final (self).alloc_cursor == old(self).alloc_cursor,
    {
        let a = &mut self.allocations[i];
        a.clear_marked();
    }

    /// Reads payload word `w` of allocation `i`.
    pub fn word_of(&self, i: usize, w: usize) -> (r: u64)
        requires
            self.wf(),
            i < self.allocations@.len(),
            w < self.allocations@[i as int].words@.len(),
        ensures
            r == self.allocations@[i as int].words@[w as int],
    {
        self.allocations[i].words[w]
    }

    /// Writes payload word `w` of allocation `i`.
    pub fn set_word_of(&mut self, i: usize, w: usize, val: u64)
        requires
            old(self).wf(),
            i < old(self).allocations@.len(),
            w < old(self).allocations@[i as int].words@.len(),
        ensures
            final (self).wf(),
            final (self).allocations@.len() == old(self).allocations@.len(),
            forall|k: int|
                0 <= k < old(self).allocations@.len() && k != i ==> final (self).allocations@[k]
                    == old(self).allocations@[k],
            final (self).allocations@[i as int].words@ == old(
                self,
            ).allocations@[i as int].words@.update(w as int, val),
            final (self).allocations@[i as int].at == old(self).allocations@[i as int].at,
            final (self).allocations@[i as int].cell_size == old(
                self,
            ).allocations@[i as int].cell_size,
            final (self).allocations@[i as int].is_marked == old(
                self,
            ).allocations@[i as int].is_marked,
            final (self).allocations@[i as int].has_valid_cell == old(
                self,
            ).allocations@[i as int].has_valid_cell,
            final (self).allocations@[i as int].header == old(self).allocations@[i as int].header,
            final (self).current_live_mark == old(self).current_live_mark,
            final (self).alloc_cursor == old(self).alloc_cursor,
    {
        let a = &mut self.allocations[i];
        a.words.set(w, val);
    }
}

} // verus!
