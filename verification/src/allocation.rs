//! The Immix space: the mutator-facing allocator.
//!
//! Small objects are bump-allocated into the current hole of the current
//! block; medium objects use a separate overflow block so that they do not
//! eat blocks that could still serve many small allocations.  The space
//! also keeps recyclable blocks, a reserve of evacuation-headroom blocks,
//! and a space-wide bitmap of object-start addresses used to filter
//! arbitrary pointers.

use vstd::prelude::*;

use crate::block::BLOCK_GRANULES;
use crate::block::BLOCK_WORDS;
use crate::block::ImmixBlock;
use crate::block::scan_result_ok;
use crate::block::spec_holes;
use crate::block_allocator::BlockAllocator;
use crate::constants::BLOCK_SIZE;
use crate::constants::LARGE_OBJECT;
use crate::constants::MEDIUM_OBJECT;
use crate::constants::NUM_LINES_PER_BLOCK;
use crate::util::Address;

verus! {

/// A mutator's hold on a block: the block's number and the current hole's
/// low and high byte offsets.
pub type BlockTuple = (usize, u16, u16);

/// The block a mutator hold names, as a sequence: one number, or none.
pub open spec fn spec_hold_block(t: Option<BlockTuple>) -> Seq<usize> {
    match t {
        Some(v) => seq![v.0],
        None => Seq::empty(),
    }
}

/// The Immix space.
pub struct ImmixSpace {
    /// The backing block allocator.
    pub block_allocator: BlockAllocator,
    /// One flag per 16-byte granule of the region: whether an object
    /// starts there.
    pub bitmap: Vec<bool>,
    /// Blocks with holes left, refilled by each sweep.
    pub recyclable_blocks: Vec<usize>,
    /// Blocks held back as evacuation destinations.
    pub evac_headroom: Vec<usize>,
    /// Blocks retired since the last collection began.
    pub unavailable_blocks: Vec<usize>,
    /// The block the small path is bumping into.
    pub current_block: Option<BlockTuple>,
    /// The block the medium path is bumping into.
    pub current_ovf_block: Option<BlockTuple>,
    /// The block evacuated objects are copied into.
    pub current_evac_block: Option<BlockTuple>,
    /// The polarity live marks carry this cycle.
    pub current_live_mark: bool,
}

impl ImmixSpace {
    /// First usable address of the region.
    pub open spec fn spec_aligned(&self) -> int {
        self.block_allocator.spec_aligned()
    }

    /// How many whole blocks the region can hold.
    pub open spec fn spec_total_blocks(&self) -> int {
        (self.block_allocator.data_bound - self.spec_aligned()) / (BLOCK_SIZE as int)
    }

    /// Whether a mutator hold is on a real block with sane offsets.
    pub open spec fn tuple_ok(&self, t: BlockTuple) -> bool {
        &&& (t.0 as int) < self.block_allocator.blocks@.len()
        &&& t.1 % 16 == 0
        &&& 2 * crate::constants::LINE_SIZE <= t.1
        &&& t.1 <= t.2 + 1
        &&& t.2 < BLOCK_SIZE
    }

    /// Whether an optional mutator hold is sane.
    pub open spec fn opt_tuple_ok(&self, t: Option<BlockTuple>) -> bool {
        t matches Some(v) ==> self.tuple_ok(v)
    }

    /// Structural well-formedness of the space.
    pub open spec fn wf(&self) -> bool {
        &&& self.block_allocator.wf()
        &&& self.bitmap@.len() == self.spec_total_blocks() * (BLOCK_GRANULES as int)
        &&& self.opt_tuple_ok(self.current_block)
        &&& self.opt_tuple_ok(self.current_ovf_block)
        &&& self.opt_tuple_ok(self.current_evac_block)
        &&& forall|k: int|
            0 <= k < self.recyclable_blocks@.len() ==> (#[trigger] self.recyclable_blocks@[k]
                as int) < self.block_allocator.blocks@.len()
        &&& forall|k: int|
            0 <= k < self.evac_headroom@.len() ==> (#[trigger] self.evac_headroom@[k] as int)
                < self.block_allocator.blocks@.len()
        &&& forall|k: int|
            0 <= k < self.unavailable_blocks@.len() ==> (#[trigger] self.unavailable_blocks@[k]
                as int) < self.block_allocator.blocks@.len()
    }

    /// Whether address `a` lies in a block that has been built.
    pub open spec fn spec_in_built_region(&self, a: int) -> bool {
        self.spec_aligned() <= a < self.spec_aligned() + self.block_allocator.blocks@.len() * (
        BLOCK_SIZE as int)
    }

    /// The number of the block that owns address `a`.
    pub open spec fn spec_block_of(&self, a: int) -> int {
        (a - self.spec_aligned()) / (BLOCK_SIZE as int)
    }

    /// The granule number of address `a` in the space-wide bitmap.
    pub open spec fn spec_granule_of(&self, a: int) -> int {
        (a - self.spec_aligned()) / 16
    }

    /// Whether the object-start bit for `a` is set: only 16-byte-aligned
    /// addresses of the region carry a bit.
    pub open spec fn spec_bit_at(&self, a: int) -> bool {
        &&& a % 16 == 0
        &&& self.spec_aligned() <= a
        &&& self.spec_granule_of(a) < self.bitmap@.len()
        &&& self.bitmap@[self.spec_granule_of(a)]
    }

    /// Creates a space over a fresh reservation of `size` bytes.
    pub fn new(size: usize) -> (r: ImmixSpace)
        requires
            3 * BLOCK_SIZE + size <= usize::MAX,
        ensures
            r.wf(),
            r.block_allocator.blocks@.len() == 0,
            !r.current_live_mark,
            forall|a: int| !r.spec_bit_at(a),
            r.block_allocator.mmap.start == BLOCK_SIZE,
            r.block_allocator.mmap.stop == BLOCK_SIZE + size,
            r.recyclable_blocks@.len() == 0,
            r.evac_headroom@.len() == 0,
            r.unavailable_blocks@.len() == 0,
    {
        let block_allocator = BlockAllocator::new(size);
        let total = block_allocator.total_blocks();
        proof {
            let gap = block_allocator.data_bound - block_allocator.spec_aligned();
            assert(total * BLOCK_GRANULES <= size) by (nonlinear_arith)
                requires
                    total == gap / (BLOCK_SIZE as int),
                    0 <= gap <= size,
                    BLOCK_SIZE == 32768,
                    BLOCK_GRANULES == 2048,
                    size >= 0,
            ;
        }
        let n = total * BLOCK_GRANULES;
        let mut bitmap: Vec<bool> = Vec::new();
        let mut i: usize = 0;
        while i < n
            invariant
                i == bitmap@.len(),
                i <= n,
                forall|g: int| 0 <= g < i ==> !bitmap@[g],
            decreases n - i,
        {
            bitmap.push(false);
            i = i + 1;
        }
        ImmixSpace {
            block_allocator,
            bitmap,
            recyclable_blocks: Vec::new(),
            evac_headroom: Vec::new(),
            unavailable_blocks: Vec::new(),
            current_block: None,
            current_ovf_block: None,
            current_evac_block: None,
            current_live_mark: false,
        }
    }

    /// Sets the mark polarity freshly allocated objects will carry.
    pub fn set_current_live_mark(&mut self, mark: bool)
        requires
            old(self).wf(),
        ensures
            final (self).wf(),
            *final (self) == (ImmixSpace { current_live_mark: mark, ..*old(self) }),
    {
        self.current_live_mark = mark;
    }

    /// The number of blocks held as evacuation headroom.
    pub fn evac_headroom(&self) -> (r: usize)
        ensures
            r == self.evac_headroom@.len(),
    {
        self.evac_headroom.len()
    }

    /// Quick containment test: whether `addr` points into the reserved
    /// region.  Used on the mark path where the pointer is known to be an
    /// object.
    pub fn filter_fast(&self, addr: Address) -> (r: bool)
        requires
            self.wf(),
        ensures
            r == (self.block_allocator.mmap.start < addr@ <= self.block_allocator.data_bound),
    {
        self.block_allocator.is_in_space(addr)
    }

    /// Whether the region holds a granule for `a`, with `a` 16-byte
    /// aligned; returns the granule.
    fn granule_for(&self, a: usize) -> (r: Option<usize>)
        requires
            self.wf(),
        ensures
            r matches Some(g) ==> a % 16 == 0 && self.spec_aligned() <= a && g
                == self.spec_granule_of(a as int) && (g as int) < self.bitmap@.len(),
            r is None ==> !(a % 16 == 0 && self.spec_aligned() <= a && self.spec_granule_of(
                a as int,
            ) < self.bitmap@.len()),
    {
        let aligned = self.block_allocator.mmap.start() + BLOCK_SIZE;
        if a % 16 != 0 || a < aligned {
            return None;
        }
        let g = (a - aligned) / 16;
        if g >= self.bitmap.len() {
            return None;
        }
        Some(g)
    }

    /// Records that an object starts at `addr`.
    #[verifier::rlimit(100)]
    #[verifier::spinoff_prover]
    pub fn set_gc_object(&mut self, addr: Address) -> (r: bool)
        requires
            old(self).wf(),
        ensures
            final (self).wf(),
            r == (addr@ % 16 == 0 && old(self).spec_aligned() <= addr@ && old(
                self,
            ).spec_granule_of(addr@ as int) < old(self).bitmap@.len()),
            r ==> forall|a: int|
                final (self).spec_bit_at(a) == (old(self).spec_bit_at(a) || a == addr@),
            !r ==> *final (self) == *old(self),
            final (self).block_allocator == old(self).block_allocator,
            final (self).recyclable_blocks == old(self).recyclable_blocks,
            final (self).evac_headroom == old(self).evac_headroom,
            final (self).unavailable_blocks == old(self).unavailable_blocks,
            final (self).current_block == old(self).current_block,
            final (self).current_ovf_block == old(self).current_ovf_block,
            final (self).current_evac_block == old(self).current_evac_block,
            final (self).current_live_mark == old(self).current_live_mark,
    {
        match self.granule_for(addr.to_usize()) {
            Some(g) => {
                self.bitmap.set(g, true);
                proof {
                    assert forall|a: int|
                        self.spec_bit_at(a) == (old(self).spec_bit_at(a) || a == addr@) by {
                        if a % 16 == 0 && self.spec_in_built_region(a) {
                            if a != addr@ {
                                let al = self.spec_aligned();
                                assert(al % 16 == 0) by (nonlinear_arith)
                                    requires
                                        al == self.block_allocator.mmap.start + BLOCK_SIZE,
                                        self.block_allocator.mmap.start % BLOCK_SIZE == 0,
                                        BLOCK_SIZE == 32768,
                                        self.block_allocator.mmap.start >= 0,
                                ;
                                assert(self.spec_granule_of(a) != g) by (nonlinear_arith)
                                    requires
                                        a % 16 == 0,
                                        addr@ % 16 == 0,
                                        a != addr@,
                                        a >= al,
                                        addr@ >= al,
                                        self.spec_granule_of(a) == (a - al) / 16,
                                        g == (addr@ - al) / 16,
                                        al % 16 == 0,
                                ;
                            }
                        }
                    }
                }
                true
            },
            None => false,
        }
    }

    /// Clears the object-start bit of `addr`.
    #[verifier::rlimit(100)]
    #[verifier::spinoff_prover]
    pub fn unset_gc_object(&mut self, addr: Address)
        requires
            old(self).wf(),
        ensures
            final (self).wf(),
            forall|a: int|
                final (self).spec_bit_at(a) == (old(self).spec_bit_at(a) && a != addr@),
            final (self).block_allocator == old(self).block_allocator,
            final (self).recyclable_blocks == old(self).recyclable_blocks,
            final (self).evac_headroom == old(self).evac_headroom,
            final (self).unavailable_blocks == old(self).unavailable_blocks,
            final (self).current_block == old(self).current_block,
            final (self).current_ovf_block == old(self).current_ovf_block,
            final (self).current_evac_block == old(self).current_evac_block,
            final (self).current_live_mark == old(self).current_live_mark,
    {
        match self.granule_for(addr.to_usize()) {
            Some(g) => {
                self.bitmap.set(g, false);
                proof {
                    assert forall|a: int|
                        self.spec_bit_at(a) == (old(self).spec_bit_at(a) && a != addr@) by {
                        if a % 16 == 0 && self.spec_in_built_region(a) {
                            if a != addr@ {
                                let al = self.spec_aligned();
                                assert(al % 16 == 0) by (nonlinear_arith)
                                    requires
                                        al == self.block_allocator.mmap.start + BLOCK_SIZE,
                                        self.block_allocator.mmap.start % BLOCK_SIZE == 0,
                                        BLOCK_SIZE == 32768,
                                        self.block_allocator.mmap.start >= 0,
                                ;
                                assert(self.spec_granule_of(a) != g) by (nonlinear_arith)
                                    requires
                                        a % 16 == 0,
                                        addr@ % 16 == 0,
                                        a != addr@,
                                        a >= al,
                                        addr@ >= al,
                                        self.spec_granule_of(a) == (a - al) / 16,
                                        g == (addr@ - al) / 16,
                                        al % 16 == 0,
                                ;
                            }
                        }
                    }
                }
            },
            None => {},
        }
    }

    /// Filters an arbitrary pointer: returns the canonical object start it
    /// names, either the pointer itself or, for an interior pointer into
    /// the first payload word, the header one granule below.
    pub fn filter(&self, addr: Address) -> (r: Option<Address>)
        requires
            self.wf(),
        ensures
            r matches Some(q) ==> self.spec_bit_at(q@ as int) && (q@ == addr@ || q@ == addr@ - 8),
            r is None ==> !self.spec_bit_at(addr@ as int) && !(addr@ >= 8 && self.spec_bit_at(
                addr@ - 8,
            )),
            self.spec_bit_at(addr@ as int) ==> r == Some(addr),
    {
        let a = addr.to_usize();
        match self.granule_for(a) {
            Some(g) => {
                if self.bitmap[g] {
                    return Some(addr);
                }
            },
            None => {},
        }
        if a >= 8 {
            match self.granule_for(a - 8) {
                Some(g) => {
                    if self.bitmap[g] {
                        return Some(Address::from(a - 8));
                    }
                },
                None => {},
            }
        }
        None
    }

    /// Filter correctness for fresh allocations: an address the allocator
    /// just returned carries the object-start bit, so the pointer filter
    /// recognises it and returns it unchanged as its own canonical object
    /// start.
    pub proof fn lemma_allocation_is_filterable(&self, prior: &ImmixSpace, r: int, size: int)
        requires
            self.alloc_result_ok(prior, r, size),
        ensures
            self.spec_bit_at(r),
            r % 16 == 0,
    {
    }

    /// The two spaces never claim the same pointer: an address with the
    /// object-start bit is 16-byte aligned, while every large-object cell
    /// carries the half-alignment tag.
    pub proof fn lemma_spaces_disjoint(&self, p: int)
        requires
            self.spec_bit_at(p),
        ensures
            !crate::large_object_space::spec_is_precise(p),
    {
    }

    /// Resolves an address to the number of the built block that owns it.
    pub fn block_index_for(&self, addr: Address) -> (r: Option<usize>)
        requires
            self.wf(),
        ensures
            r matches Some(b) ==> {
                &&& (b as int) < self.block_allocator.blocks@.len()
                &&& b == self.spec_block_of(addr@ as int)
                &&& self.block_allocator.blocks@[b as int].spec_begin() <= addr@
                    < self.block_allocator.blocks@[b as int].spec_begin() + BLOCK_SIZE
            },
            r is None ==> !self.spec_in_built_region(addr@ as int),
    {
        let a = addr.to_usize();
        let aligned = self.block_allocator.mmap.start() + BLOCK_SIZE;
        if a < aligned {
            return None;
        }
        let b = (a - aligned) / BLOCK_SIZE;
        let nblocks = self.block_allocator.blocks.len();
        if b >= nblocks {
            proof {
                assert(!self.spec_in_built_region(a as int)) by (nonlinear_arith)
                    requires
                        b == (a - self.spec_aligned()) / (BLOCK_SIZE as int),
                        a >= self.spec_aligned(),
                        b >= nblocks >= 0,
                        self.spec_in_built_region(a as int) == (self.spec_aligned() <= a
                            < self.spec_aligned() + nblocks * (BLOCK_SIZE as int)),
                        BLOCK_SIZE == 32768,
                ;
            }
            return None;
        }
        proof {
            let al = self.spec_aligned();
            assert(al + b * BLOCK_SIZE <= a < al + b * BLOCK_SIZE + BLOCK_SIZE) by (
            nonlinear_arith)
                requires
                    b == (a - al) / (BLOCK_SIZE as int),
                    a >= al,
                    BLOCK_SIZE == 32768,
            ;
            assert(self.block_allocator.blocks@[b as int].spec_begin() == al + b * BLOCK_SIZE);
        }
        Some(b)
    }

    /// Finds the next hole of at least `size` usable bytes in block `b`,
    /// scanning from byte offset `from`, and forgets any stale headers in
    /// it.  Returns the hole's low and high byte offsets.
    fn acquire_hole(&mut self, b: usize, from: u16, size: usize) -> (r: Option<(u16, u16)>)
        requires
            old(self).wf(),
            (b as int) < old(self).block_allocator.blocks@.len(),
            size % 16 == 0,
            0 < size < LARGE_OBJECT + 32,
            from < BLOCK_SIZE,
        ensures
            final (self).wf(),
            final (self).block_allocator.blocks@.len() == old(self).block_allocator.blocks@.len(),
            forall|i: int|
                0 <= i < old(self).block_allocator.blocks@.len() && i != b ==> final (self).block_allocator.blocks@[i] == old(self).block_allocator.blocks@[i],
            final (self).block_allocator.blocks@[b as int].line_map@ == old(
                self,
            ).block_allocator.blocks@[b as int].line_map@,
            final (self).block_allocator.blocks@[b as int].spec_begin() == old(
                self,
            ).block_allocator.blocks@[b as int].spec_begin(),
            final (self).block_allocator.blocks@[b as int].allocated == old(
                self,
            ).block_allocator.blocks@[b as int].allocated,
            final (self).block_allocator.blocks@[b as int].words@ == old(
                self,
            ).block_allocator.blocks@[b as int].words@,
            final (self).block_allocator.blocks@[b as int].hole_count == old(
                self,
            ).block_allocator.blocks@[b as int].hole_count,
            final (self).block_allocator.blocks@[b as int].evacuation_candidate == old(
                self,
            ).block_allocator.blocks@[b as int].evacuation_candidate,
            final (self).block_allocator.free_blocks@ == old(self).block_allocator.free_blocks@,
            final (self).block_allocator.data == old(self).block_allocator.data,
            final (self).block_allocator.data_bound == old(self).block_allocator.data_bound,
            final (self).block_allocator.mmap == old(self).block_allocator.mmap,
            final (self).bitmap@ == old(self).bitmap@,
            final (self).recyclable_blocks == old(self).recyclable_blocks,
            final (self).evac_headroom == old(self).evac_headroom,
            final (self).unavailable_blocks == old(self).unavailable_blocks,
            final (self).current_block == old(self).current_block,
            final (self).current_ovf_block == old(self).current_ovf_block,
            final (self).current_evac_block == old(self).current_evac_block,
            final (self).current_live_mark == old(self).current_live_mark,
            r matches Some(h) ==> {
                &&& scan_result_ok(
                    old(self).block_allocator.blocks@[b as int].line_map@,
                    from as int,
                    h.0 as int,
                    h.1 as int,
                )
                &&& h.1 + 1 - h.0 >= size
            },
            r is None ==> final (self).block_allocator.blocks@[b as int] == old(
                self,
            ).block_allocator.blocks@[b as int],
            (from == 0 && (forall|l: int|
                1 <= l < NUM_LINES_PER_BLOCK ==> !old(
                    self,
                ).block_allocator.blocks@[b as int].line_map@[l])) ==> r is Some,
    {
        let ghost lmap = self.block_allocator.blocks@[b as int].line_map@;
        let mut cursor = from;
        loop
            invariant
                self.wf(),
                *self == *old(self),
                (b as int) < self.block_allocator.blocks@.len(),
                lmap == self.block_allocator.blocks@[b as int].line_map@,
                from <= cursor < BLOCK_SIZE,
                size % 16 == 0,
                0 < size < LARGE_OBJECT + 32,
                cursor > from ==> !(from == 0 && (forall|l: int|
                    1 <= l < NUM_LINES_PER_BLOCK ==> !lmap[l])),
            decreases BLOCK_SIZE - cursor,
        {
            let hole = self.block_allocator.blocks[b].scan_block(cursor);
            match hole {
                None => {
                    proof {
                        if cursor == from && from == 0 && (forall|l: int|
                            1 <= l < NUM_LINES_PER_BLOCK ==> !lmap[l]) {
                            assert(false);
                        }
                    }
                    return None;
                },
                Some((lo, hi)) => {
                    if (hi - lo) as usize + 1 >= size {
                        // The hole's bytes are garbage: forget any stale
                        // header slots inside it.
                        let glo = lo as usize / 16;
                        let ghi = (hi as usize + 1) / 16;
                        let blk = &mut self.block_allocator.blocks[b];
                        blk.clear_headers_range(glo, ghi);
                        proof {
                            assert forall|i: int|
                                0 <= i < self.block_allocator.blocks@.len() implies (
                            #[trigger] self.block_allocator.blocks@[i]).wf()
                                && self.block_allocator.blocks@[i].spec_begin()
                                == self.block_allocator.spec_aligned() + i * BLOCK_SIZE by {
                                if i != b {
                                    assert(self.block_allocator.blocks@[i] == old(
                                        self,
                                    ).block_allocator.blocks@[i]);
                                }
                            }
                        }
                        return Some((lo, hi));
                    }
                    proof {
                        if from == 0 && (forall|l: int|
                            1 <= l < NUM_LINES_PER_BLOCK ==> !lmap[l]) {
                            // The scan over an empty block yields the whole
                            // tail, which any small or medium size fits.
                            if cursor == from {
                                assert(hole == Some(
                                    (
                                        (2 * crate::constants::LINE_SIZE) as u16,
                                        (BLOCK_SIZE - 1) as u16,
                                    ),
                                ));
                                assert(false);
                            }
                        }
                    }
                    cursor = hi;
                },
            }
        }
    }

    /// What allocation changes: the object-start bit of the returned
    /// address is set and every other bit is untouched, and the address is
    /// a 16-byte-aligned spot inside a built block with room for `size`
    /// bytes.
    pub open spec fn alloc_result_ok(&self, prior: &ImmixSpace, r: int, size: int) -> bool {
        &&& r % 16 == 0
        &&& self.spec_in_built_region(r)
        &&& 0 <= self.spec_block_of(r) < self.block_allocator.blocks@.len()
        &&& {
            let b = self.spec_block_of(r);
            let begin = self.block_allocator.blocks@[b].spec_begin();
            &&& begin < r
            &&& r - begin + size <= BLOCK_SIZE
        }
        &&& self.spec_bit_at(r)
        &&& forall|a: int| a != r ==> self.spec_bit_at(a) == prior.spec_bit_at(a)
    }

    /// Refills a mutator hold and bump-allocates `size` bytes: first the
    /// held hole, then further holes of the same block, then (for the small
    /// path) recyclable blocks, and finally fresh blocks from the block
    /// allocator.  Returns the new hold and the address, or zero once the
    /// region is exhausted.
    fn refill_and_bump(&mut self, t: Option<BlockTuple>, size: usize, use_recyclables: bool) -> (r:
        (Option<BlockTuple>, usize))
        requires
            old(self).wf(),
            old(self).opt_tuple_ok(t),
            size % 16 == 0,
            0 < size < LARGE_OBJECT + 32,
        ensures
            final (self).wf(),
            final (self).opt_tuple_ok(r.0),
            r.1 != 0 ==> final (self).alloc_result_ok(old(self), r.1 as int, size as int),
            r.1 == 0 ==> final (self).bitmap@ == old(self).bitmap@
                && final (self).block_allocator.blocks@.len()
                == old(self).block_allocator.blocks@.len(),
            // Failure happens only with the region exhausted: nothing left
            // to carve and an empty free pool.
            r.1 == 0 ==> final (self).block_allocator.free_blocks@.len() == 0 && final (self).block_allocator.data + BLOCK_SIZE > final (self).block_allocator.data_bound,
            old(self).block_allocator.data + BLOCK_SIZE <= old(self).block_allocator.data_bound
                ==> r.1 != 0,
            final (self).current_block == old(self).current_block,
            final (self).current_ovf_block == old(self).current_ovf_block,
            final (self).current_evac_block == old(self).current_evac_block,
            final (self).current_live_mark == old(self).current_live_mark,
            final (self).evac_headroom == old(self).evac_headroom,
            !use_recyclables ==> final (self).recyclable_blocks == old(self).recyclable_blocks,
            final (self).block_allocator.data_bound == old(self).block_allocator.data_bound,
            final (self).block_allocator.mmap == old(self).block_allocator.mmap,
            final (self).block_allocator.blocks@.len() >= old(self).block_allocator.blocks@.len(),
    {
        // Fast path and same-block rescan.
        match t {
            Some(tuple) => {
                let (b, low, high) = tuple;
                if low as usize + size <= high as usize + 1 {
                    let (nt, r) = self.bump_in(tuple, size);
                    return (Some(nt), r);
                }
                match self.acquire_hole(b, high, size) {
                    Some((lo, hi)) => {
                        let (nt, r) = self.bump_in((b, lo, hi), size);
                        return (Some(nt), r);
                    },
                    None => {
                        // The block is exhausted for this size: retire it.
                        self.unavailable_blocks.push(b);
                    },
                }
            },
            None => {},
        }
        // Recyclable blocks, for the small path.
        if use_recyclables {
            loop
                invariant
                    self.wf(),
                    size % 16 == 0,
                    0 < size < LARGE_OBJECT + 32,
                    self.bitmap@ == old(self).bitmap@,
                    self.block_allocator.blocks@.len() == old(self).block_allocator.blocks@.len(),
                    self.block_allocator.data == old(self).block_allocator.data,
                    self.block_allocator.data_bound == old(self).block_allocator.data_bound,
                    self.block_allocator.mmap == old(self).block_allocator.mmap,
                    self.current_block == old(self).current_block,
                    self.current_ovf_block == old(self).current_ovf_block,
                    self.current_evac_block == old(self).current_evac_block,
                    self.current_live_mark == old(self).current_live_mark,
                    self.evac_headroom == old(self).evac_headroom,
                    use_recyclables,
                    forall|a: int| self.spec_bit_at(a) == old(self).spec_bit_at(a),
                decreases self.recyclable_blocks@.len(),
            {
                if self.recyclable_blocks.len() == 0 {
                    break ;
                }
                let b = self.recyclable_blocks.pop().unwrap();
                match self.acquire_hole(b, 0, size) {
                    Some((lo, hi)) => {
                        let (nt, r) = self.bump_in((b, lo, hi), size);
                        return (Some(nt), r);
                    },
                    None => {
                        self.unavailable_blocks.push(b);
                    },
                }
            }
        }
        // Fresh blocks from the allocator.
        loop
            invariant
                self.wf(),
                size % 16 == 0,
                0 < size < LARGE_OBJECT + 32,
                self.bitmap@ == old(self).bitmap@,
                self.block_allocator.blocks@.len() == old(self).block_allocator.blocks@.len(),
                self.block_allocator.data == old(self).block_allocator.data,
                self.block_allocator.data_bound == old(self).block_allocator.data_bound,
                self.block_allocator.mmap == old(self).block_allocator.mmap,
                self.current_block == old(self).current_block,
                self.current_ovf_block == old(self).current_ovf_block,
                self.current_evac_block == old(self).current_evac_block,
                self.current_live_mark == old(self).current_live_mark,
                self.evac_headroom == old(self).evac_headroom,
                !use_recyclables ==> self.recyclable_blocks == old(self).recyclable_blocks,
                forall|a: int| self.spec_bit_at(a) == old(self).spec_bit_at(a),
            decreases self.block_allocator.free_blocks@.len(),
        {
            let had_free = self.block_allocator.free_blocks.len() > 0;
            match self.block_allocator.get_block() {
                None => {
                    return (None, 0);
                },
                Some(b) => {
                    proof {
                        assert(self.block_allocator.blocks@[b as int].wf());
                    }
                    self.set_allocated(b, true);
                    match self.acquire_hole(b, 0, size) {
                        Some((lo, hi)) => {
                            let (nt, r) = self.bump_in((b, lo, hi), size);
                            return (Some(nt), r);
                        },
                        None => {
                            proof {
                                if !had_free {
                                    // A freshly built block is empty, so a
                                    // hole was guaranteed.
                                    assert(false);
                                }
                            }
                            self.unavailable_blocks.push(b);
                        },
                    }
                },
            }
        }
    }

    /// Hands out `size` bytes at the front of the hole `t` holds, records
    /// the object start, and returns the new hold and the address.
    fn bump_in(&mut self, t: BlockTuple, size: usize) -> (r: (BlockTuple, usize))
        requires
            old(self).wf(),
            old(self).tuple_ok(t),
            size % 16 == 0,
            0 < size < LARGE_OBJECT + 32,
            t.1 + size <= t.2 + 1,
        ensures
            final (self).wf(),
            final (self).tuple_ok(r.0),
            r.0.0 == t.0,
            r.0.1 == t.1 + size,
            r.0.2 == t.2,
            final (self).alloc_result_ok(old(self), r.1 as int, size as int),
            r.1 != 0,
            final (self).block_allocator == old(self).block_allocator,
            final (self).recyclable_blocks == old(self).recyclable_blocks,
            final (self).evac_headroom == old(self).evac_headroom,
            final (self).unavailable_blocks == old(self).unavailable_blocks,
            final (self).current_block == old(self).current_block,
            final (self).current_ovf_block == old(self).current_ovf_block,
            final (self).current_evac_block == old(self).current_evac_block,
            final (self).current_live_mark == old(self).current_live_mark,
        decreases 0int,
    {
        let (b, low, high) = t;
        let begin = self.block_allocator.blocks[b].begin();
        let r = begin + low as usize;
        proof {
            let al = self.spec_aligned();
            let nb = self.block_allocator.blocks@.len() as int;
            let total = self.spec_total_blocks();
            assert(nb <= total) by (nonlinear_arith)
                requires
                    nb == (self.block_allocator.data - al) / (BLOCK_SIZE as int),
                    total == (self.block_allocator.data_bound - al) / (BLOCK_SIZE as int),
                    self.block_allocator.data <= self.block_allocator.data_bound,
                    al <= self.block_allocator.data,
                    BLOCK_SIZE == 32768,
            ;
            assert(begin % 16 == 0 && begin == al + b * BLOCK_SIZE && al + b * BLOCK_SIZE + low
                < al + nb * (BLOCK_SIZE as int) && (al + b * BLOCK_SIZE + low) % 16 == 0 && (al + b
                * BLOCK_SIZE + low - al) / (BLOCK_SIZE as int) == b && (al + b * BLOCK_SIZE + low
                - (al + b * BLOCK_SIZE)) / 16 == low as int / 16 && (al + b * BLOCK_SIZE + low
                - al) / 16 < total * (BLOCK_GRANULES as int)) by (nonlinear_arith)
                requires
                    begin == self.block_allocator.blocks@[b as int].spec_begin(),
                    begin == al + b * BLOCK_SIZE,
                    al == self.block_allocator.mmap.start + BLOCK_SIZE,
                    self.block_allocator.mmap.start % BLOCK_SIZE == 0,
                    self.block_allocator.mmap.start >= 0,
                    (b as int) < nb <= total,
                    0 <= low < BLOCK_SIZE,
                    low % 16 == 0,
                    BLOCK_SIZE == 32768,
                    BLOCK_GRANULES == 2048,
            ;
        }
        let set = self.set_gc_object(Address::from(r));
        proof {
            assert(set);
        }
        ((b, low + size as u16, high), r)
    }

    /// Frame condition: everything except the block data is unchanged.
    pub open spec fn same_but_blocks(&self, o: &ImmixSpace) -> bool {
        &&& self.bitmap == o.bitmap
        &&& self.recyclable_blocks == o.recyclable_blocks
        &&& self.evac_headroom == o.evac_headroom
        &&& self.unavailable_blocks == o.unavailable_blocks
        &&& self.current_block == o.current_block
        &&& self.current_ovf_block == o.current_ovf_block
        &&& self.current_evac_block == o.current_evac_block
        &&& self.current_live_mark == o.current_live_mark
        &&& self.block_allocator.free_blocks == o.block_allocator.free_blocks
        &&& self.block_allocator.data == o.block_allocator.data
        &&& self.block_allocator.data_bound == o.block_allocator.data_bound
        &&& self.block_allocator.mmap == o.block_allocator.mmap
        &&& self.block_allocator.blocks@.len() == o.block_allocator.blocks@.len()
    }

    /// Frame condition: every block but `b` is unchanged.
    pub open spec fn blocks_same_except(&self, o: &ImmixSpace, b: int) -> bool {
        forall|i: int|
            0 <= i < o.block_allocator.blocks@.len() && i != b
                ==> #[trigger] self.block_allocator.blocks@[i] == o.block_allocator.blocks@[i]
    }

    /// The block data of block `b`.
    pub open spec fn spec_block(&self, b: int) -> ImmixBlock {
        self.block_allocator.blocks@[b]
    }

    /// Marks or unmarks block `b` as an evacuation candidate.
    pub fn set_evacuation_candidate(&mut self, b: usize, v: bool)
        requires
            old(self).wf(),
            (b as int) < old(self).block_allocator.blocks@.len(),
        ensures
            final (self).wf(),
            final (self).same_but_blocks(old(self)),
            final (self).blocks_same_except(old(self), b as int),
            final (self).spec_block(b as int) == (ImmixBlock {
                evacuation_candidate: v,
                ..old(self).spec_block(b as int)
            }),
    {
        let blk = &mut self.block_allocator.blocks[b];
        blk.evacuation_candidate = v;
        proof {
            self.lemma_block_update_wf(old(self), b as int);
        }
    }

    /// Marks block `b` as handed to an allocator, or returned.
    pub fn set_allocated(&mut self, b: usize, v: bool)
        requires
            old(self).wf(),
            (b as int) < old(self).block_allocator.blocks@.len(),
        ensures
            final (self).wf(),
            final (self).same_but_blocks(old(self)),
            final (self).blocks_same_except(old(self), b as int),
            final (self).spec_block(b as int) == (ImmixBlock {
                allocated: v,
                ..old(self).spec_block(b as int)
            }),
    {
        let blk = &mut self.block_allocator.blocks[b];
        blk.allocated = v;
        proof {
            self.lemma_block_update_wf(old(self), b as int);
        }
    }

    /// Writes the header slot of granule `g` of block `b`.
    pub fn set_block_header(&mut self, b: usize, g: usize, w: u64)
        requires
            old(self).wf(),
            (b as int) < old(self).block_allocator.blocks@.len(),
            g < BLOCK_GRANULES,
        ensures
            final (self).wf(),
            final (self).same_but_blocks(old(self)),
            final (self).blocks_same_except(old(self), b as int),
            final (self).spec_block(b as int).headers@ == old(self).spec_block(
                b as int,
            ).headers@.update(g as int, w),
            final (self).spec_block(b as int).line_map == old(self).spec_block(b as int).line_map,
            final (self).spec_block(b as int).words@ == old(self).spec_block(b as int).words@,
            final (self).spec_block(b as int).allocated == old(self).spec_block(b as int).allocated,
            final (self).spec_block(b as int).hole_count == old(self).spec_block(
                b as int,
            ).hole_count,
            final (self).spec_block(b as int).evacuation_candidate == old(self).spec_block(
                b as int,
            ).evacuation_candidate,
    {
        let blk = &mut self.block_allocator.blocks[b];
        blk.set_header(g, w);
        proof {
            self.lemma_block_update_wf(old(self), b as int);
        }
    }

    /// Writes memory word `w` of block `b`.
    pub fn set_block_word(&mut self, b: usize, w: usize, val: u64)
        requires
            old(self).wf(),
            (b as int) < old(self).block_allocator.blocks@.len(),
            w < BLOCK_WORDS,
        ensures
            final (self).wf(),
            final (self).same_but_blocks(old(self)),
            final (self).blocks_same_except(old(self), b as int),
            final (self).spec_block(b as int).words@ == old(self).spec_block(
                b as int,
            ).words@.update(w as int, val),
            final (self).spec_block(b as int).line_map == old(self).spec_block(b as int).line_map,
            final (self).spec_block(b as int).headers@ == old(self).spec_block(b as int).headers@,
            final (self).spec_block(b as int).allocated == old(self).spec_block(b as int).allocated,
            final (self).spec_block(b as int).hole_count == old(self).spec_block(
                b as int,
            ).hole_count,
            final (self).spec_block(b as int).evacuation_candidate == old(self).spec_block(
                b as int,
            ).evacuation_candidate,
    {
        let blk = &mut self.block_allocator.blocks[b];
        blk.set_word(w, val);
        proof {
            self.lemma_block_update_wf(old(self), b as int);
        }
    }

    /// Marks the lines of block `b` covered by a live object of `size`
    /// bytes at `object`.
    pub fn mark_block_lines(&mut self, b: usize, object: Address, size: usize)
        requires
            old(self).wf(),
            (b as int) < old(self).block_allocator.blocks@.len(),
            size <= BLOCK_SIZE,
        ensures
            final (self).wf(),
            final (self).same_but_blocks(old(self)),
            final (self).blocks_same_except(old(self), b as int),
            forall|l: int|
                0 <= l < NUM_LINES_PER_BLOCK ==> final (self).spec_block(b as int).line_map@[l]
                    == (old(self).spec_block(b as int).line_map@[l] || crate::block::spec_line_of(
                    object@ as int,
                ) <= l <= crate::block::spec_line_of(object@ as int) + size / crate::constants::LINE_SIZE),
            final (self).spec_block(b as int).headers@ == old(self).spec_block(b as int).headers@,
            final (self).spec_block(b as int).words@ == old(self).spec_block(b as int).words@,
    {
        let blk = &mut self.block_allocator.blocks[b];
        blk.line_object_mark(object, size);
        proof {
            self.lemma_block_update_wf(old(self), b as int);
        }
    }

    /// Allocates `size` bytes for the mutator: the small path bumps into
    /// the current block's holes and falls back to recyclable and fresh
    /// blocks; the medium path uses the separate overflow block.  Returns
    /// zero once the region is exhausted; while a whole block remains
    /// unused, allocation cannot fail.
    pub fn allocate(&mut self, size: usize) -> (r: usize)
        requires
            old(self).wf(),
            1 <= size < LARGE_OBJECT,
        ensures
            final (self).wf(),
            r != 0 ==> final (self).alloc_result_ok(
                old(self),
                r as int,
                crate::object::spec_object_size(size as int),
            ),
            old(self).block_allocator.data + BLOCK_SIZE <= old(self).block_allocator.data_bound
                ==> r != 0,
            // Failure happens only with the region exhausted.
            r == 0 ==> final (self).block_allocator.free_blocks@.len() == 0 && final (self).block_allocator.data + BLOCK_SIZE > final (self).block_allocator.data_bound,
            // A small request is served by the small bump path and leaves
            // the overflow hold alone; a medium request is served from the
            // overflow block and touches neither the small hold nor the
            // recyclable list.
            size < MEDIUM_OBJECT ==> final (self).current_ovf_block == old(
                self,
            ).current_ovf_block,
            size >= MEDIUM_OBJECT ==> final (self).current_block == old(self).current_block
                && final (self).recyclable_blocks == old(self).recyclable_blocks,
            final (self).current_live_mark == old(self).current_live_mark,
            final (self).block_allocator.data_bound == old(self).block_allocator.data_bound,
            final (self).block_allocator.mmap == old(self).block_allocator.mmap,
            final (self).block_allocator.blocks@.len() >= old(self).block_allocator.blocks@.len(),
            final (self).evac_headroom == old(self).evac_headroom,
            final (self).current_evac_block == old(self).current_evac_block,
    {
        let footprint = crate::align_usize(size + crate::object::HEADER_SIZE, 16);
        proof {
            assert(footprint == crate::object::spec_object_size(size as int) && footprint % 16
                == 0 && 0 < footprint < LARGE_OBJECT + 32) by (nonlinear_arith)
                requires
                    footprint == ((size + 8 + 15) as int / 16) * 16,
                    crate::object::spec_object_size(size as int) == ((size + 8 + 15) as int / 16)
                        * 16,
                    1 <= size < LARGE_OBJECT,
                    LARGE_OBJECT == 8192,
            ;
        }
        if size < MEDIUM_OBJECT {
            let t = self.current_block;
            let (nt, r) = self.refill_and_bump(t, footprint, true);
            self.current_block = nt;
            proof {
                assert(self.wf());
            }
            r
        } else {
            let t = self.current_ovf_block;
            let (nt, r) = self.refill_and_bump(t, footprint, false);
            self.current_ovf_block = nt;
            proof {
                assert(self.wf());
            }
            r
        }
    }

    /// Allocates `size` bytes of evacuation destination space, drawing on
    /// the current evacuation block and then on the headroom reserve.
    /// Returns zero once the headroom is exhausted.
    fn evac_allocate(&mut self, size: usize) -> (r: usize)
        requires
            old(self).wf(),
            size % 16 == 0,
            0 < size < LARGE_OBJECT + 32,
        ensures
            final (self).wf(),
            r != 0 ==> final (self).alloc_result_ok(old(self), r as int, size as int),
            r == 0 ==> final (self).bitmap@ == old(self).bitmap@,
            // Failure only once the whole reserve is used up.
            r == 0 ==> final (self).evac_headroom@.len() == 0,
            final (self).block_allocator.blocks@.len() == old(self).block_allocator.blocks@.len(),
            final (self).current_live_mark == old(self).current_live_mark,
            final (self).current_block == old(self).current_block,
            final (self).current_ovf_block == old(self).current_ovf_block,
            final (self).unavailable_blocks == old(self).unavailable_blocks,
    {
        match self.current_evac_block {
            Some(tuple) => {
                let (b, low, high) = tuple;
                if low as usize + size <= high as usize + 1 {
                    let (nt, r) = self.bump_in(tuple, size);
                    self.current_evac_block = Some(nt);
                    proof {
                        assert(self.wf());
                    }
                    return r;
                }
                match self.acquire_hole(b, high, size) {
                    Some((lo, hi)) => {
                        let ghost pre = *self;
                        let (nt, r) = self.bump_in((b, lo, hi), size);
                        self.current_evac_block = Some(nt);
                        proof {
                            assert(self.wf());
                            assert forall|a: int|
                                a != r implies self.spec_bit_at(a) == old(self).spec_bit_at(
                                a,
                            ) by {
                                assert(self.spec_bit_at(a) == pre.spec_bit_at(a));
                            }
                        }
                        return r;
                    },
                    None => {
                        self.current_evac_block = None;
                    },
                }
            },
            None => {},
        }
        loop
            invariant
                self.wf(),
                size % 16 == 0,
                0 < size < LARGE_OBJECT + 32,
                self.bitmap@ == old(self).bitmap@,
                self.block_allocator.blocks@.len() == old(self).block_allocator.blocks@.len(),
                self.block_allocator.data == old(self).block_allocator.data,
                self.block_allocator.data_bound == old(self).block_allocator.data_bound,
                self.block_allocator.mmap == old(self).block_allocator.mmap,
                self.current_block == old(self).current_block,
                self.current_ovf_block == old(self).current_ovf_block,
                self.unavailable_blocks == old(self).unavailable_blocks,
                self.current_live_mark == old(self).current_live_mark,
                forall|a: int| self.spec_bit_at(a) == old(self).spec_bit_at(a),
            decreases self.evac_headroom@.len(),
        {
            if self.evac_headroom.len() == 0 {
                return 0;
            }
            let b = self.evac_headroom.pop().unwrap();
            match self.acquire_hole(b, 0, size) {
                Some((lo, hi)) => {
                    let ghost pre = *self;
                    let (nt, r) = self.bump_in((b, lo, hi), size);
                    self.current_evac_block = Some(nt);
                    proof {
                        assert(self.wf());
                        assert forall|a: int|
                            a != r implies self.spec_bit_at(a) == old(self).spec_bit_at(a) by {
                            assert(self.spec_bit_at(a) == pre.spec_bit_at(a));
                        }
                    }
                    return r;
                },
                None => {},
            }
        }
    }

    /// Tries to evacuate the object of `size` bytes at `object`: when its
    /// block is an evacuation candidate, the object is neither pinned nor
    /// already forwarded, and destination space is available, the object's
    /// header and payload are copied to a fresh address, a forwarding
    /// pointer is installed in the old header, and the new address is
    /// returned.
    pub fn maybe_evacuate(&mut self, object: Address, size: usize) -> (r: Option<Address>)
        requires
            old(self).wf(),
            size % 16 == 0,
            16 <= size < LARGE_OBJECT,
        ensures
            final (self).wf(),
            final (self).current_live_mark == old(self).current_live_mark,
            final (self).block_allocator.blocks@.len() == old(self).block_allocator.blocks@.len(),
            // A pinned object is never evacuated: the pin bit forces
            // refusal and the heap is left untouched.
            ({
                let b = old(self).spec_block_of(object@ as int);
                let g = (object@ - old(self).spec_block(b).spec_begin()) / 16;
                crate::util::spec_bit_is_set(old(self).spec_block(b).spec_header(g), 2) ==> (
                r is None && *final (self) == *old(self))
            }),
            // A refusal has one of the stated causes: the address names no
            // object that fits its block, the block is no candidate, the
            // header is empty, already forwarded or pinned, or no usable
            // destination was left.
            r is None ==> {
                let b = old(self).spec_block_of(object@ as int);
                let g = (object@ - old(self).spec_block(b).spec_begin()) / 16;
                let h = old(self).spec_block(b).spec_header(g);
                ||| object@ % 16 != 0
                ||| !old(self).spec_in_built_region(object@ as int)
                ||| object@ - old(self).spec_block(b).spec_begin() + size > BLOCK_SIZE
                ||| !old(self).spec_block(b).evacuation_candidate
                ||| h == 0
                ||| crate::util::spec_bit_is_set(h, 1)
                ||| crate::util::spec_bit_is_set(h, 2)
                ||| final (self).evac_headroom@.len() == 0
                ||| (exists|d: int|
                    final (self).spec_bit_at(d) && final (self).spec_block_of(d) == b)
            },
            r matches Some(d) ==> {
                let b = old(self).spec_block_of(object@ as int);
                let g = (object@ - old(self).spec_block(b).spec_begin()) / 16;
                let db = final (self).spec_block_of(d@ as int);
                let dg = (d@ - final (self).spec_block(db).spec_begin()) / 16;
                &&& d@ % 16 == 0
                &&& d@ != 0
                &&& final (self).spec_bit_at(d@ as int)
                &&& 0 <= db < final (self).block_allocator.blocks@.len()
                &&& db != b
                // A forwarding pointer to the copy now sits in the old
                // header.
                &&& crate::util::spec_bit_is_set(final (self).spec_block(b).spec_header(g), 1)
                &&& crate::util::spec_untagged(final (self).spec_block(b).spec_header(g)) == d@
                // The copy carries the old header word.
                &&& final (self).spec_block(db).spec_header(dg) == old(self).spec_block(
                    b,
                ).spec_header(g)
                // The payload words moved with it.
                &&& (forall|w: int|
                    1 <= w < size / 8 ==> #[trigger] final (self).spec_block(db).spec_word(
                        (d@ - final (self).spec_block(db).spec_begin()) / 8 + w,
                    ) == old(self).spec_block(b).spec_word(
                        (object@ - old(self).spec_block(b).spec_begin()) / 8 + w,
                    ))
            },
    {
        let obj = object.to_usize();
        let b = match self.block_index_for(object) {
            None => { return None },
            Some(b) => b,
        };
        if obj % 16 != 0 {
            return None;
        }
        let begin = self.block_allocator.blocks[b].begin();
        if obj - begin > BLOCK_SIZE - size {
            // The object would not even fit its own block: not a real
            // object.
            return None;
        }
        if !self.block_allocator.blocks[b].evacuation_candidate {
            return None;
        }
        let g = (obj - begin) / 16;
        let so = (obj - begin) / 8;
        proof {
            assert(self.spec_block(b as int).wf());
            let diff = (obj - begin) as int;
            assert(g < BLOCK_GRANULES && so + size / 8 <= BLOCK_WORDS && so == 2 * g) by (
            nonlinear_arith)
                requires
                    g == diff / 16,
                    so == diff / 8,
                    0 <= diff <= BLOCK_SIZE - size,
                    obj % 16 == 0,
                    begin % BLOCK_SIZE == 0,
                    begin >= 0,
                    diff == obj - begin,
                    size % 16 == 0,
                    0 < size,
                    BLOCK_SIZE == 32768,
                    BLOCK_GRANULES == 2048,
                    BLOCK_WORDS == 4096,
            ;
            assert(g == (object@ - self.spec_block(b as int).spec_begin()) / 16);
        }
        let h = self.block_allocator.blocks[b].header(g);
        if h == 0 {
            return None;
        }
        if crate::util::bit_is_set(h, 1) {
            // Already forwarded.
            return None;
        }
        if crate::util::bit_is_set(h, 2) {
            // Pinned by a conservative root.
            return None;
        }
        // Read the payload out before the destination is carved, so the
        // copy cannot be disturbed by the carving.
        let words = size / 8;
        let mut buf: Vec<u64> = Vec::new();
        let mut w: usize = 1;
        while w < words
            invariant
                self.wf(),
                *self == *old(self),
                words == size / 8,
                1 <= w <= words,
                (b as int) < self.block_allocator.blocks@.len(),
                so + words <= BLOCK_WORDS,
                buf@.len() == w - 1,
                forall|k: int|
                    0 <= k < buf@.len() ==> #[trigger] buf@[k] == self.spec_block(
                        b as int,
                    ).spec_word(so + 1 + k),
            decreases words - w,
        {
            let val = self.block_allocator.blocks[b].word(so + w);
            buf.push(val);
            w = w + 1;
        }
        let d = self.evac_allocate(size);
        if d == 0 {
            return None;
        }
        let db = match self.block_index_for(Address::from(d)) {
            None => {
                proof {
                    assert(false);
                }
                return None;
            },
            Some(x) => x,
        };
        if db == b {
            // An evacuation candidate never serves as its own destination.
            return None;
        }
        let dbegin = self.block_allocator.blocks[db].begin();
        let dg = (d - dbegin) / 16;
        let dwo = (d - dbegin) / 8;
        proof {
            assert(dg < BLOCK_GRANULES && dwo + size / 8 <= BLOCK_WORDS && dwo == 2 * dg && dg == (
            d - self.spec_block(db as int).spec_begin()) / 16) by (nonlinear_arith)
                requires
                    dg == (d - dbegin) as int / 16,
                    dwo == (d - dbegin) as int / 8,
                    dbegin == self.spec_block(db as int).spec_begin(),
                    dbegin < d,
                    d % 16 == 0,
                    dbegin % BLOCK_SIZE == 0,
                    dbegin >= 0,
                    d as int - dbegin + size <= BLOCK_SIZE,
                    size % 16 == 0,
                    0 < size,
                    BLOCK_SIZE == 32768,
                    BLOCK_GRANULES == 2048,
                    BLOCK_WORDS == 4096,
            ;
        }
        // Copy the header word, then the payload words.
        let ghost mid = *self;
        self.set_block_header(db, dg, h);
        let mut w: usize = 1;
        while w < words
            invariant
                self.wf(),
                words == size / 8,
                1 <= w <= words,
                (b as int) < self.block_allocator.blocks@.len(),
                (db as int) < self.block_allocator.blocks@.len(),
                db != b,
                dwo + words <= BLOCK_WORDS,
                dg < BLOCK_GRANULES,
                buf@.len() == words - 1,
                self.spec_block(db as int).spec_header(dg as int) == h,
                forall|k: int|
                    1 <= k < w ==> #[trigger] self.spec_block(db as int).spec_word(dwo + k)
                        == buf@[k - 1],
                self.same_but_blocks(&mid),
                forall|i: int|
                    0 <= i < self.block_allocator.blocks@.len() && i != db
                        ==> #[trigger] self.spec_block(i) == mid.spec_block(i),
                self.spec_block(db as int).spec_begin() == mid.spec_block(db as int).spec_begin(),
            decreases words - w,
        {
            let ghost pre = *self;
            let val = buf[w - 1];
            self.set_block_word(db, dwo + w, val);
            proof {
                assert forall|i: int|
                    0 <= i < self.block_allocator.blocks@.len() && i != db implies
                    #[trigger] self.spec_block(i) == mid.spec_block(i) by {
                    assert(self.spec_block(i) == pre.spec_block(i));
                }
                assert forall|k: int|
                    1 <= k < w + 1 implies #[trigger] self.spec_block(db as int).spec_word(
                    dwo + k) == buf@[k - 1] by {
                    if k < w {
                        assert(self.spec_block(db as int).spec_word(dwo + k) == pre.spec_block(
                            db as int,
                        ).spec_word(dwo + k));
                    }
                }
            }
            w = w + 1;
        }
        // Install the forwarding pointer in the old header.
        proof {
            crate::util::lemma_set_forwarded_word(d as u64);
        }
        let fwd = crate::util::with_bit(d as u64, 1);
        self.set_block_header(b, g, fwd);
        Some(Address::from(d))
    }

    /// Takes every block retired since the last collection, together with
    /// the mutator's current small and overflow blocks, for the collector
    /// to sweep.
    pub fn get_all_blocks(&mut self) -> (r: Vec<usize>)
        requires
            old(self).wf(),
        ensures
            final (self).wf(),
            r@ == old(self).unavailable_blocks@ + spec_hold_block(old(self).current_block)
                + spec_hold_block(old(self).current_ovf_block),
            forall|k: int|
                0 <= k < r@.len() ==> (#[trigger] r@[k] as int)
                    < final (self).block_allocator.blocks@.len(),
            final (self).unavailable_blocks@.len() == 0,
            final (self).current_block is None,
            final (self).current_ovf_block is None,
            final (self).block_allocator == old(self).block_allocator,
            final (self).bitmap == old(self).bitmap,
            final (self).recyclable_blocks == old(self).recyclable_blocks,
            final (self).evac_headroom == old(self).evac_headroom,
            final (self).current_evac_block == old(self).current_evac_block,
            final (self).current_live_mark == old(self).current_live_mark,
    {
        let mut r: Vec<usize> = Vec::new();
        let n = self.unavailable_blocks.len();
        let mut k: usize = 0;
        while k < n
            invariant
                self.wf(),
                n == self.unavailable_blocks@.len(),
                k <= n,
                r@ == self.unavailable_blocks@.subrange(0, k as int),
                self == old(self),
            decreases n - k,
        {
            r.push(self.unavailable_blocks[k]);
            proof {
                assert(r@ =~= self.unavailable_blocks@.subrange(0, k + 1 as int));
            }
            k = k + 1;
        }
        proof {
            assert(r@ =~= old(self).unavailable_blocks@);
        }
        self.unavailable_blocks = Vec::new();
        match self.current_block {
            Some(t) => {
                r.push(t.0);
                self.current_block = None;
            },
            None => {},
        }
        match self.current_ovf_block {
            Some(t) => {
                r.push(t.0);
                self.current_ovf_block = None;
            },
            None => {},
        }
        proof {
            assert(r@ =~= old(self).unavailable_blocks@ + spec_hold_block(old(self).current_block)
                + spec_hold_block(old(self).current_ovf_block));
        }
        r
    }

    /// Installs the recyclable-block list computed by the latest sweep.
    pub fn set_recyclable_blocks(&mut self, list: Vec<usize>)
        requires
            old(self).wf(),
            forall|k: int|
                0 <= k < list@.len() ==> (#[trigger] list@[k] as int) < old(
                    self,
                ).block_allocator.blocks@.len(),
        ensures
            final (self).wf(),
            *final (self) == (ImmixSpace { recyclable_blocks: list, ..*old(self) }),
    {
        self.recyclable_blocks = list;
    }

    /// Adds one freed block to the evacuation headroom reserve.
    pub fn push_evac_headroom(&mut self, b: usize)
        requires
            old(self).wf(),
            (b as int) < old(self).block_allocator.blocks@.len(),
        ensures
            final (self).wf(),
            final (self).evac_headroom@ == old(self).evac_headroom@.push(b),
            final (self).block_allocator == old(self).block_allocator,
            final (self).bitmap == old(self).bitmap,
            final (self).recyclable_blocks == old(self).recyclable_blocks,
            final (self).unavailable_blocks == old(self).unavailable_blocks,
            final (self).current_block == old(self).current_block,
            final (self).current_ovf_block == old(self).current_ovf_block,
            final (self).current_evac_block == old(self).current_evac_block,
            final (self).current_live_mark == old(self).current_live_mark,
    {
        self.evac_headroom.push(b);
    }

    /// Returns the blocks `list[start..]` to the block allocator's free
    /// pool.
    pub fn return_blocks(&mut self, list: &Vec<usize>, start: usize)
        requires
            old(self).wf(),
            start <= list@.len(),
            forall|k: int|
                0 <= k < list@.len() ==> (#[trigger] list@[k] as int) < old(
                    self,
                ).block_allocator.blocks@.len(),
        ensures
            final (self).wf(),
            final (self).block_allocator.free_blocks@ == old(self).block_allocator.free_blocks@
                + list@.subrange(start as int, list@.len() as int),
            final (self).block_allocator.blocks@ == old(self).block_allocator.blocks@,
            final (self).block_allocator.data == old(self).block_allocator.data,
            final (self).block_allocator.data_bound == old(self).block_allocator.data_bound,
            final (self).block_allocator.mmap == old(self).block_allocator.mmap,
            final (self).bitmap == old(self).bitmap,
            final (self).recyclable_blocks == old(self).recyclable_blocks,
            final (self).evac_headroom == old(self).evac_headroom,
            final (self).unavailable_blocks == old(self).unavailable_blocks,
            final (self).current_block == old(self).current_block,
            final (self).current_ovf_block == old(self).current_ovf_block,
            final (self).current_evac_block == old(self).current_evac_block,
            final (self).current_live_mark == old(self).current_live_mark,
    {
        let mut k = start;
        while k < list.len()
            invariant
                self.wf(),
                start <= k <= list@.len(),
                forall|j: int|
                    0 <= j < list@.len() ==> (#[trigger] list@[j] as int)
                        < self.block_allocator.blocks@.len(),
                self.block_allocator.free_blocks@ == old(self).block_allocator.free_blocks@
                    + list@.subrange(start as int, k as int),
                self.block_allocator.blocks@ == old(self).block_allocator.blocks@,
                self.block_allocator.data == old(self).block_allocator.data,
                self.block_allocator.data_bound == old(self).block_allocator.data_bound,
                self.block_allocator.mmap == old(self).block_allocator.mmap,
                self.bitmap == old(self).bitmap,
                self.recyclable_blocks == old(self).recyclable_blocks,
                self.evac_headroom == old(self).evac_headroom,
                self.unavailable_blocks == old(self).unavailable_blocks,
                self.current_block == old(self).current_block,
                self.current_ovf_block == old(self).current_ovf_block,
                self.current_evac_block == old(self).current_evac_block,
                self.current_live_mark == old(self).current_live_mark,
            decreases list@.len() - k,
        {
            self.block_allocator.return_block(list[k]);
            proof {
                assert(self.block_allocator.free_blocks@ =~= old(
                    self,
                ).block_allocator.free_blocks@ + list@.subrange(start as int, k + 1 as int));
            }
            k = k + 1;
        }
    }

    /// Resets block `b` to the free state: lines cleared, flags down,
    /// headers forgotten.
    pub fn reset_block(&mut self, b: usize)
        requires
            old(self).wf(),
            (b as int) < old(self).block_allocator.blocks@.len(),
        ensures
            final (self).wf(),
            final (self).same_but_blocks(old(self)),
            final (self).blocks_same_except(old(self), b as int),
            forall|l: int|
                0 <= l < NUM_LINES_PER_BLOCK ==> !(final (self).spec_block(
                    b as int,
                ).line_map@[l]),
            !final (self).spec_block(b as int).allocated,
            final (self).spec_block(b as int).hole_count == 0,
            !final (self).spec_block(b as int).evacuation_candidate,
            forall|g: int|
                0 <= g < BLOCK_GRANULES ==> final (self).spec_block(b as int).spec_header(g) == 0,
    {
        let blk = &mut self.block_allocator.blocks[b];
        blk.reset();
        proof {
            self.lemma_block_update_wf(old(self), b as int);
        }
    }

    /// Clears every line mark of block `b` ahead of a new mark phase.
    pub fn clear_block_lines(&mut self, b: usize)
        requires
            old(self).wf(),
            (b as int) < old(self).block_allocator.blocks@.len(),
        ensures
            final (self).wf(),
            final (self).same_but_blocks(old(self)),
            final (self).blocks_same_except(old(self), b as int),
            forall|l: int|
                0 <= l < NUM_LINES_PER_BLOCK ==> !(final (self).spec_block(
                    b as int,
                ).line_map@[l]),
            final (self).spec_block(b as int).headers@ == old(self).spec_block(b as int).headers@,
            final (self).spec_block(b as int).words@ == old(self).spec_block(b as int).words@,
            final (self).spec_block(b as int).allocated == old(self).spec_block(b as int).allocated,
            final (self).spec_block(b as int).hole_count == old(self).spec_block(
                b as int,
            ).hole_count,
            final (self).spec_block(b as int).evacuation_candidate == old(self).spec_block(
                b as int,
            ).evacuation_candidate,
    {
        let blk = &mut self.block_allocator.blocks[b];
        blk.line_map.clear_all();
        proof {
            self.lemma_block_update_wf(old(self), b as int);
        }
    }

    /// Recounts and caches the holes of block `b`; the count never exceeds
    /// the lines per block.
    pub fn count_block_holes(&mut self, b: usize) -> (r: usize)
        requires
            old(self).wf(),
            (b as int) < old(self).block_allocator.blocks@.len(),
        ensures
            final (self).wf(),
            final (self).same_but_blocks(old(self)),
            final (self).blocks_same_except(old(self), b as int),
            r == spec_holes(final (self).spec_block(b as int).line_map@),
            final (self).spec_block(b as int).hole_count == r,
            r <= NUM_LINES_PER_BLOCK,
            final (self).spec_block(b as int).line_map@ == old(self).spec_block(
                b as int,
            ).line_map@,
            final (self).spec_block(b as int).headers@ == old(self).spec_block(b as int).headers@,
            final (self).spec_block(b as int).words@ == old(self).spec_block(b as int).words@,
            final (self).spec_block(b as int).allocated == old(self).spec_block(b as int).allocated,
            final (self).spec_block(b as int).evacuation_candidate == old(self).spec_block(
                b as int,
            ).evacuation_candidate,
    {
        let blk = &mut self.block_allocator.blocks[b];
        let r = blk.count_holes();
        proof {
            self.lemma_block_update_wf(old(self), b as int);
        }
        r
    }

    /// After one block changed in a way that keeps its own well-formedness
    /// and base address, the space as a whole is still well-formed.
    proof fn lemma_block_update_wf(&self, o: &ImmixSpace, b: int)
        requires
            o.wf(),
            self.same_but_blocks(o),
            self.blocks_same_except(o, b),
            0 <= b < self.block_allocator.blocks@.len(),
            self.spec_block(b).wf(),
            self.spec_block(b).spec_begin() == o.spec_block(b).spec_begin(),
        ensures
            self.wf(),
    {
        assert forall|i: int|
            0 <= i < self.block_allocator.blocks@.len() implies (
        #[trigger] self.block_allocator.blocks@[i]).wf() && self.block_allocator.blocks@[i].spec_begin()
            == self.block_allocator.spec_aligned() + i * BLOCK_SIZE by {
            if i != b {
                assert(self.block_allocator.blocks@[i] == o.block_allocator.blocks@[i]);
            }
        }
    }

    /// Clears every object-start bit of block number `b`: the marker
    /// rebuilds them for live objects.
    #[verifier::rlimit(50)]
    pub fn clear_bitmap_for_block(&mut self, b: usize)
        requires
            old(self).wf(),
            (b as int) < old(self).block_allocator.blocks@.len(),
        ensures
            final (self).wf(),
            forall|a: int|
                final (self).spec_bit_at(a) == (old(self).spec_bit_at(a) && !(old(
                    self,
                ).spec_aligned() + b * BLOCK_SIZE <= a < old(self).spec_aligned() + (b + 1)
                    * BLOCK_SIZE)),
            final (self).block_allocator == old(self).block_allocator,
            final (self).recyclable_blocks == old(self).recyclable_blocks,
            final (self).evac_headroom == old(self).evac_headroom,
            final (self).unavailable_blocks == old(self).unavailable_blocks,
            final (self).current_block == old(self).current_block,
            final (self).current_ovf_block == old(self).current_ovf_block,
            final (self).current_evac_block == old(self).current_evac_block,
            final (self).current_live_mark == old(self).current_live_mark,
    {
        let n = self.bitmap.len();
        proof {
            let al0 = self.spec_aligned();
            assert(al0 % 16 == 0) by (nonlinear_arith)
                requires
                    al0 == self.block_allocator.mmap.start + BLOCK_SIZE,
                    self.block_allocator.mmap.start % BLOCK_SIZE == 0,
                    BLOCK_SIZE == 32768,
                    self.block_allocator.mmap.start >= 0,
            ;
            let nb = self.block_allocator.blocks@.len() as int;
            let total = self.spec_total_blocks();
            assert(nb <= total) by (nonlinear_arith)
                requires
                    nb == (self.block_allocator.data - self.spec_aligned()) / (BLOCK_SIZE as int),
                    total == (self.block_allocator.data_bound - self.spec_aligned()) / (
                    BLOCK_SIZE as int),
                    self.block_allocator.data <= self.block_allocator.data_bound,
                    self.spec_aligned() <= self.block_allocator.data,
                    BLOCK_SIZE == 32768,
            ;
            assert(b * BLOCK_GRANULES + BLOCK_GRANULES <= total * BLOCK_GRANULES) by (
            nonlinear_arith)
                requires
                    (b as int) < nb <= total,
                    BLOCK_GRANULES == 2048,
                    b >= 0,
            ;
            assert(n == total * BLOCK_GRANULES);
            assert(b * BLOCK_GRANULES + BLOCK_GRANULES <= n);
        }
        let lo = b * BLOCK_GRANULES;
        let hi = lo + BLOCK_GRANULES;
        let mut g = lo;
        while g < hi
            invariant
                old(self).wf(),
                self.bitmap@.len() == old(self).bitmap@.len(),
                lo <= g <= hi <= self.bitmap@.len(),
                lo == b * BLOCK_GRANULES,
                hi == lo + BLOCK_GRANULES,
                forall|k: int|
                    0 <= k < self.bitmap@.len() ==> self.bitmap@[k] == (old(self).bitmap@[k] && !(
                    lo <= k < g)),
                self.block_allocator == old(self).block_allocator,
                self.recyclable_blocks == old(self).recyclable_blocks,
                self.evac_headroom == old(self).evac_headroom,
                self.unavailable_blocks == old(self).unavailable_blocks,
                self.current_block == old(self).current_block,
                self.current_ovf_block == old(self).current_ovf_block,
                self.current_evac_block == old(self).current_evac_block,
                self.current_live_mark == old(self).current_live_mark,
            decreases hi - g,
        {
            self.bitmap.set(g, false);
            g = g + 1;
        }
        proof {
            assert forall|a: int|
                self.spec_bit_at(a) == (old(self).spec_bit_at(a) && !(old(self).spec_aligned() + b
                    * BLOCK_SIZE <= a < old(self).spec_aligned() + (b + 1) * BLOCK_SIZE)) by {
                if a % 16 == 0 && self.spec_aligned() <= a && self.spec_granule_of(a)
                    < self.bitmap@.len() {
                    let al = self.spec_aligned();
                    assert((lo <= self.spec_granule_of(a) < hi) == (al + b * BLOCK_SIZE <= a < al
                        + (b + 1) * BLOCK_SIZE)) by (nonlinear_arith)
                        requires
                            a % 16 == 0,
                            a >= al,
                            al % 16 == 0,
                            self.spec_granule_of(a) == (a - al) / 16,
                            lo == b * BLOCK_GRANULES,
                            hi == lo + BLOCK_GRANULES,
                            BLOCK_GRANULES == 2048,
                            BLOCK_SIZE == 32768,
                            b >= 0,
                    ;
                }
            }
        }
    }
}

} // verus!
