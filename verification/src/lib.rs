//! An Immix-style mark-region garbage collector, modelled over a heap of
//! plain machine words and verified with Verus.
//!
//! The collector manages a region of synthetic addresses split into 32 KiB
//! blocks of 256-byte lines, a separate large-object space for allocations of
//! 8 KiB and more, a tracing marker with opportunistic evacuation, and a
//! sweep that classifies blocks by their hole histogram.

use vstd::prelude::*;

use crate::constants::BLOCK_SIZE;
use crate::constants::LARGE_OBJECT;

pub mod allocation;
pub mod block;
pub mod block_allocator;
pub mod collector;
pub mod constants;
pub mod large_object_space;
pub mod object;
pub mod safepoint;
pub mod threading;
pub mod util;

verus! {

/// Which kind of cycle the collector performs: plain marking, or marking
/// with opportunistic evacuation.
#[derive(Clone, Copy, PartialEq, Eq, Structural, Debug)]
pub enum CollectionType {
    /// Trace and sweep without moving any object.
    ImmixCollection,
    /// Trace, relocating objects out of evacuation candidates.
    ImmixEvacCollection,
}

/// Rounds `value` up to the nearest multiple of `align`.
pub fn align_usize(value: usize, align: usize) -> (r: usize)
    requires
        value + align <= usize::MAX,
    ensures
        align == 0 ==> r == value,
        align > 0 ==> r == ((value + align - 1) / align as int) * align as int,
{
    if align == 0 {
        return value;
    }
    let q = (value + align - 1) / align;
    proof {
        assert(q * align <= value + align - 1) by (nonlinear_arith)
            requires
                align > 0,
                q == (value + align - 1) as int / align as int,
        ;
    }
    q * align
}

/// Whether `a` was appended to `v0` somewhere in its extension `v`.
pub open spec fn pushed_after(v0: Seq<usize>, v: Seq<usize>, a: int) -> bool {
    exists|k: int| v0.len() <= k < v.len() && v[k] as int == a
}

/// An entry appended to `v0` in `v1` is still appended in any further
/// extension `v2` of `v1`.
pub proof fn lemma_pushed_after_grow(v0: Seq<usize>, v1: Seq<usize>, v2: Seq<usize>, a: int)
    requires
        pushed_after(v0, v1, a),
        v1.len() <= v2.len(),
        forall|k: int| 0 <= k < v1.len() ==> v1[k] == #[trigger] v2[k],
    ensures
        pushed_after(v0, v2, a),
{
    let k = choose|k: int| v0.len() <= k < v1.len() && v1[k] as int == a;
    assert(v0.len() <= k < v2.len() && v2[k] as int == a);
}

/// Which of the three allocation paths a request of a given size takes.
#[derive(Clone, Copy, PartialEq, Eq, Structural, Debug)]
pub enum SizeClass {
    /// Bump-allocated into the current hole of the current block.
    Small,
    /// Allocated from the separate overflow block.
    Medium,
    /// Allocated in the large-object space.
    Large,
}

/// The allocation path a request of `size` bytes takes: small below
/// `MEDIUM_OBJECT`, large from `LARGE_OBJECT` on, medium in between.
pub fn size_class(size: usize) -> (r: SizeClass)
    ensures
        r == SizeClass::Small <==> size < crate::constants::MEDIUM_OBJECT,
        r == SizeClass::Large <==> size >= LARGE_OBJECT,
        r == SizeClass::Medium <==> (crate::constants::MEDIUM_OBJECT <= size < LARGE_OBJECT),
{
    if size < crate::constants::MEDIUM_OBJECT {
        SizeClass::Small
    } else if size >= LARGE_OBJECT {
        SizeClass::Large
    } else {
        SizeClass::Medium
    }
}

/// The top-level heap controller: both spaces, the collector, the type
/// descriptor table, the registered precise roots, the finalizer queue and
/// the collection-trigger policy.
pub struct Immix {
    /// The large-object space.
    pub los: large_object_space::LargeObjectSpace,
    /// The Immix space.
    pub immix: allocation::ImmixSpace,
    /// Bytes allocated since the last completed cycle.
    pub allocated: usize,
    /// A cycle is forced once `allocated` reaches this many bytes.
    pub threshold: usize,
    /// The polarity marking live objects this cycle.
    pub current_live_mark: bool,
    /// The collector state carried between cycles.
    pub collector: collector::Collector,
    /// Headers queued for possible finalization.
    pub to_finalize: Vec<usize>,
    /// Cells whose finalizer has run.
    pub finalized: Vec<usize>,
    /// The type descriptor table; headers encode positions in it.
    pub rttis: Vec<object::GCRTTI>,
    /// The registered precise root slots.
    pub roots: Vec<usize>,
    /// How many cycles have completed.
    pub collections: usize,
    /// How many of them evacuated.
    pub evac_collections: usize,
}

impl Immix {
    /// The header word stored for the Immix-space object at `a`.
    pub open spec fn spec_immix_header_at(&self, a: int) -> u64 {
        let b = self.immix.spec_block_of(a);
        self.immix.spec_block(b).spec_header((a - self.immix.spec_block(b).spec_begin()) / 16)
    }

    /// The payload word `idx` of the Immix-space object at `a`.
    pub open spec fn spec_immix_word_at(&self, a: int, idx: int) -> u64 {
        let b = self.immix.spec_block_of(a);
        self.immix.spec_block(b).spec_word(
            (a - self.immix.spec_block(b).spec_begin()) / 8 + 1 + idx,
        )
    }

    /// Whether `obj` names a large-object cell whose payload holds word
    /// `idx`.
    pub open spec fn los_word_in_bounds(&self, obj: int, idx: int) -> bool {
        exists|c: int|
            self.los.cell_at(c, obj) && idx + 1 < self.los.allocations@[c].words@.len()
    }

    /// Whether `obj` names an Immix-space spot whose payload word `idx`
    /// lies inside its block.
    pub open spec fn immix_word_in_bounds(&self, obj: int, idx: int) -> bool {
        &&& obj % 16 == 0
        &&& self.immix.spec_in_built_region(obj)
        &&& (obj - self.immix.spec_block(self.immix.spec_block_of(obj)).spec_begin()) / 8 + 1
            + idx < crate::block::BLOCK_WORDS
    }

    /// Whether the root filter recognises the word `w`: it is the cell
    /// address of a live large object, or it carries the Immix object-start
    /// bit in a built block with an installed header, either itself or
    /// eight bytes back.
    pub open spec fn spec_root_recognized(&self, w: int) -> bool {
        &&& w != 0
        &&& if crate::large_object_space::spec_is_precise(w) && self.los.spec_contains(w) {
            true
        } else if self.immix.spec_bit_at(w) {
            self.immix.spec_in_built_region(w) && self.spec_immix_header_at(w) != 0
        } else {
            w >= 8 && self.immix.spec_bit_at(w - 8) && self.immix.spec_in_built_region(w - 8)
                && self.spec_immix_header_at(w - 8) != 0
        }
    }

    /// The canonical object address a recognised root word stands for:
    /// the word itself, or eight bytes back for an interior pointer into
    /// the Immix space.
    pub open spec fn spec_root_target(&self, w: int) -> int {
        if crate::large_object_space::spec_is_precise(w) && self.los.spec_contains(w) {
            w
        } else if self.immix.spec_bit_at(w) {
            w
        } else {
            w - 8
        }
    }

    /// Where no large-object cell sits at `obj`, no payload word of one is
    /// in bounds either.
    proof fn lemma_no_cell_no_los_bounds(&self, obj: int, idx: int)
        requires
            !self.los.spec_contains(obj),
        ensures
            !self.los_word_in_bounds(obj, idx),
    {
        if self.los_word_in_bounds(obj, idx) {
            let c = choose|c: int|
                self.los.cell_at(c, obj) && idx + 1 < self.los.allocations@[c].words@.len();
            assert(self.los.cell_at(c, obj));
        }
    }

    /// Structural well-formedness of the whole heap: both spaces and the
    /// collector are sound, the descriptor table is sound and encodable,
    /// and the three copies of the live-mark polarity agree.
    pub open spec fn wf(&self) -> bool {
        &&& self.immix.wf()
        &&& self.los.wf()
        &&& self.collector.wf_for(&self.immix)
        &&& forall|i: int| 0 <= i < self.rttis@.len() ==> (#[trigger] self.rttis@[i]).wf()
        &&& self.rttis@.len() < 0x10000000
        &&& self.los.current_live_mark == self.current_live_mark
        &&& self.immix.current_live_mark == self.current_live_mark
    }

    /// Builds a heap over `heap_size` bytes with the given collection
    /// threshold.  The large-object space starts allocating past the
    /// block region.
    pub fn new(heap_size: usize, threshold: usize) -> (r: Immix)
        requires
            heap_size + 17 * BLOCK_SIZE <= usize::MAX,
        ensures
            r.wf(),
            r.allocated == 0,
            r.threshold == threshold,
            !r.current_live_mark,
            r.collections == 0,
            r.rttis@.len() == 0,
            r.roots@.len() == 0,
            // The region holds one whole block per `BLOCK_SIZE` bytes asked
            // for.
            r.immix.spec_total_blocks() == heap_size as int / BLOCK_SIZE as int,
            // The fresh heap starts empty and with room: the bump cursor
            // sits at the region's start, and a heap of at least one block
            // can build one at once.
            r.immix.block_allocator.data == r.immix.block_allocator.spec_aligned(),
            heap_size >= BLOCK_SIZE ==> r.immix.block_allocator.data + BLOCK_SIZE
                <= r.immix.block_allocator.data_bound,
            r.immix.block_allocator.free_blocks@.len() == 0,
            r.los.allocations@.len() == 0,
            r.los.alloc_cursor <= heap_size + 3 * BLOCK_SIZE,
            r.evac_collections == 0,
    {
        let immix = allocation::ImmixSpace::new(heap_size + BLOCK_SIZE);
        proof {
            assert(immix.spec_total_blocks() == heap_size as int / BLOCK_SIZE as int) by (
            nonlinear_arith)
                requires
                    immix.spec_total_blocks() == (immix.block_allocator.data_bound
                        - immix.block_allocator.mmap.start - BLOCK_SIZE) / (BLOCK_SIZE as int),
                    immix.block_allocator.mmap.start == BLOCK_SIZE,
                    immix.block_allocator.data_bound == if immix.block_allocator.mmap.stop >= 2
                        * BLOCK_SIZE {
                        immix.block_allocator.mmap.stop as int
                    } else {
                        2 * BLOCK_SIZE as int
                    },
                    immix.block_allocator.mmap.stop == 2 * BLOCK_SIZE + heap_size,
                    BLOCK_SIZE == 32768,
                    heap_size >= 0,
            ;
        }
        let bound = immix.block_allocator.data_bound;
        let los_base = align_usize(bound, 16) + 16;
        proof {
            assert(los_base % 16 == 0 && los_base > 0) by (nonlinear_arith)
                requires
                    los_base == ((bound + 15) as int / 16) * 16 + 16,
                    bound >= 0,
            ;
        }
        let los = large_object_space::LargeObjectSpace::new(los_base);
        proof {
            assert(immix.block_allocator.data == immix.block_allocator.spec_aligned()) by (
            nonlinear_arith)
                requires
                    (immix.block_allocator.data - immix.block_allocator.spec_aligned()) % (
                    BLOCK_SIZE as int) == 0,
                    (immix.block_allocator.data - immix.block_allocator.spec_aligned()) / (
                    BLOCK_SIZE as int) == 0,
                    immix.block_allocator.data >= immix.block_allocator.spec_aligned(),
                    BLOCK_SIZE == 32768,
            ;
            if immix.block_allocator.free_blocks@.len() > 0 {
                assert(0 <= immix.block_allocator.free_blocks@[0]
                    < immix.block_allocator.blocks@.len());
            }
            assert(los_base <= heap_size + 3 * BLOCK_SIZE) by (nonlinear_arith)
                requires
                    los_base == ((bound + 15) as int / 16) * 16 + 16,
                    bound == 2 * (BLOCK_SIZE as int) + heap_size,
                    BLOCK_SIZE == 32768,
                    heap_size >= 0,
            ;
        }
        Immix {
            los,
            immix,
            allocated: 0,
            threshold,
            current_live_mark: false,
            collector: collector::Collector::new(),
            to_finalize: Vec::new(),
            finalized: Vec::new(),
            rttis: Vec::new(),
            roots: Vec::new(),
            collections: 0,
            evac_collections: 0,
        }
    }

    /// Registers a type descriptor and returns its number, which headers
    /// of objects of this type will carry.
    pub fn register_rtti(&mut self, rtti: object::GCRTTI) -> (r: usize)
        requires
            old(self).wf(),
            rtti.wf(),
            old(self).rttis@.len() < 0x10000000 - 1,
        ensures
            final (self).wf(),
            r == old(self).rttis@.len(),
            final (self).rttis@ == old(self).rttis@.push(rtti),
            final (self).immix == old(self).immix,
            final (self).los == old(self).los,
            final (self).allocated == old(self).allocated,
            final (self).collections == old(self).collections,
    {
        let r = self.rttis.len();
        self.rttis.push(rtti);
        r
    }

    /// Registers a precise root holding `addr` and returns its slot
    /// number.  The collector rewrites the slot when the object moves.
    pub fn add_root(&mut self, addr: usize) -> (r: usize)
        requires
            old(self).wf(),
        ensures
            final (self).wf(),
            r == old(self).roots@.len(),
            final (self).roots@ == old(self).roots@.push(addr),
    {
        let r = self.roots.len();
        self.roots.push(addr);
        r
    }

    /// Reads root slot `i`.
    pub fn root(&self, i: usize) -> (r: usize)
        requires
            i < self.roots@.len(),
        ensures
            r == self.roots@[i as int],
    {
        self.roots[i]
    }

    /// Overwrites root slot `i`.
    pub fn set_root(&mut self, i: usize, addr: usize)
        requires
            old(self).wf(),
            i < old(self).roots@.len(),
        ensures
            final (self).wf(),
            final (self).roots@ == old(self).roots@.update(i as int, addr),
    {
        self.roots.set(i, addr);
    }

    /// Reads payload word `idx` of the object at `obj`; `None` when `obj`
    /// names no object or the word lies outside it.
    pub fn read_word(&self, obj: usize, idx: usize) -> (r: Option<u64>)
        requires
            self.wf(),
        ensures
            // A successful read returns the word the named object stores.
            r matches Some(w) ==> ({
                ||| (exists|c: int|
                    self.los.cell_at(c, obj as int) && w == self.los.allocations@[c].words@[idx
                        + 1])
                ||| (obj % 16 == 0 && self.immix.spec_in_built_region(obj as int) && w
                    == self.spec_immix_word_at(obj as int, idx as int))
            }),
            // A refused read means neither space holds that word.
            r is None ==> !self.los_word_in_bounds(obj as int, idx as int)
                && !self.immix_word_in_bounds(obj as int, idx as int),
    {
        if crate::large_object_space::PreciseAllocation::is_precise(util::Address::from(obj)) {
            match self.los.find_cell(util::Address::from(obj)) {
                Some(i) => {
                    let wl = self.los.allocations[i].words.len();
                    if idx < wl && idx + 1 < wl {
                        let w = self.los.word_of(i, idx + 1);
                        proof {
                            assert(self.los.cell_at(i as int, obj as int) && w
                                == self.los.allocations@[i as int].words@[idx + 1]);
                        }
                        return Some(w);
                    }
                    proof {
                        self.los.lemma_cell_at_unique(obj as int);
                        self.los.lemma_cells_half_aligned(obj as int);
                        assert(self.los.spec_contains(obj as int));
                        assert forall|c: int| self.los.cell_at(c, obj as int) implies !(idx + 1
                            < self.los.allocations@[c].words@.len()) by {
                            assert(c == i as int);
                        }
                        assert(!self.los_word_in_bounds(obj as int, idx as int));
                    }
                    return None;
                },
                None => {
                    proof {
                        self.lemma_no_cell_no_los_bounds(obj as int, idx as int);
                    }
                    return None;
                },
            }
        }
        proof {
            self.los.lemma_cells_half_aligned(obj as int);
            assert(obj as int % 16 < 8);
            self.lemma_no_cell_no_los_bounds(obj as int, idx as int);
        }
        if obj % 16 != 0 {
            return None;
        }
        match self.immix.block_index_for(util::Address::from(obj)) {
            Some(b) => {
                let begin = self.immix.block_allocator.blocks[b].begin();
                let so = (obj - begin) / 8;
                proof {
                    assert(so < crate::block::BLOCK_WORDS && so == (obj as int
                        - self.immix.spec_block(b as int).spec_begin()) / 8) by (nonlinear_arith)
                        requires
                            so == (obj - begin) as int / 8,
                            begin == self.immix.spec_block(b as int).spec_begin(),
                            0 <= obj - begin < BLOCK_SIZE,
                            BLOCK_SIZE == 32768,
                            crate::block::BLOCK_WORDS == 4096,
                    ;
                }
                if idx < crate::block::BLOCK_WORDS && so + 1 + idx < crate::block::BLOCK_WORDS {
                    let w = self.immix.block_allocator.blocks[b].word(so + 1 + idx);
                    proof {
                        assert(w == self.spec_immix_word_at(obj as int, idx as int));
                    }
                    return Some(w);
                }
                proof {
                    assert(!self.immix_word_in_bounds(obj as int, idx as int));
                }
                None
            },
            None => None,
        }
    }

    /// Writes payload word `idx` of the object at `obj`; returns whether
    /// the write landed.
    pub fn write_word(&mut self, obj: usize, idx: usize, val: u64) -> (r: bool)
        requires
            old(self).wf(),
        ensures
            final (self).wf(),
            final (self).rttis@ == old(self).rttis@,
            final (self).roots@ == old(self).roots@,
            final (self).collections == old(self).collections,
            final (self).evac_collections == old(self).evac_collections,
            final (self).threshold == old(self).threshold,
            final (self).allocated == old(self).allocated,
            final (self).current_live_mark == old(self).current_live_mark,
            final (self).los.alloc_cursor == old(self).los.alloc_cursor,
            // A refused write changes nothing; a landed write reads back.
            !r ==> *final (self) == *old(self),
            r ==> ({
                ||| (exists|c: int|
                    final (self).los.cell_at(c, obj as int) && final (self).los.allocations@[c].words@[idx + 1] == val)
                ||| (obj % 16 == 0 && final (self).immix.spec_in_built_region(obj as int)
                    && final (self).spec_immix_word_at(obj as int, idx as int) == val)
            }),
            // A refused write means neither space holds that word.
            !r ==> !old(self).los_word_in_bounds(obj as int, idx as int) && !old(
                self,
            ).immix_word_in_bounds(obj as int, idx as int),
    {
        if crate::large_object_space::PreciseAllocation::is_precise(util::Address::from(obj)) {
            match self.los.find_cell(util::Address::from(obj)) {
                Some(i) => {
                    let wl = self.los.allocations[i].words.len();
                    if idx < wl && idx + 1 < wl {
                        let ghost pre = *self;
                        self.los.set_word_of(i, idx + 1, val);
                        proof {
                            assert(self.los.allocations@[i as int].at == pre.los.allocations@[i as int].at);
                            assert(self.los.cell_at(i as int, obj as int));
                            assert(self.los.allocations@[i as int].words@[idx + 1] == val);
                        }
                        return true;
                    }
                    proof {
                        self.los.lemma_cell_at_unique(obj as int);
                        self.los.lemma_cells_half_aligned(obj as int);
                        assert(self.los.spec_contains(obj as int));
                        assert forall|c: int| self.los.cell_at(c, obj as int) implies !(idx + 1
                            < self.los.allocations@[c].words@.len()) by {
                            assert(c == i as int);
                        }
                        assert(!self.los_word_in_bounds(obj as int, idx as int));
                    }
                    return false;
                },
                None => {
                    proof {
                        self.lemma_no_cell_no_los_bounds(obj as int, idx as int);
                    }
                    return false;
                },
            }
        }
        proof {
            self.los.lemma_cells_half_aligned(obj as int);
            self.lemma_no_cell_no_los_bounds(obj as int, idx as int);
        }
        if obj % 16 != 0 {
            return false;
        }
        match self.immix.block_index_for(util::Address::from(obj)) {
            Some(b) => {
                let begin = self.immix.block_allocator.blocks[b].begin();
                let so = (obj - begin) / 8;
                proof {
                    assert(so < crate::block::BLOCK_WORDS && so == (obj as int
                        - self.immix.spec_block(b as int).spec_begin()) / 8) by (nonlinear_arith)
                        requires
                            so == (obj - begin) as int / 8,
                            begin == self.immix.spec_block(b as int).spec_begin(),
                            0 <= obj - begin < BLOCK_SIZE,
                            BLOCK_SIZE == 32768,
                            crate::block::BLOCK_WORDS == 4096,
                    ;
                }
                if idx < crate::block::BLOCK_WORDS && so + 1 + idx < crate::block::BLOCK_WORDS {
                    self.immix.set_block_word(b, so + 1 + idx, val);
                    proof {
                        assert(self.immix.spec_block_of(obj as int) == b as int);
                        assert(self.spec_immix_word_at(obj as int, idx as int) == val);
                    }
                    return true;
                }
                proof {
                    assert(!self.immix_word_in_bounds(obj as int, idx as int));
                }
                false
            },
            None => false,
        }
    }

    /// Whether the finalizer of the object at `addr` has run.
    pub fn was_finalized(&self, addr: usize) -> (r: bool)
        ensures
            r == (exists|i: int| 0 <= i < self.finalized@.len() && self.finalized@[i] == addr),
    {
        let mut i: usize = 0;
        while i < self.finalized.len()
            invariant
                i <= self.finalized@.len(),
                forall|k: int| 0 <= k < i ==> self.finalized@[k] != addr,
            decreases self.finalized@.len() - i,
        {
            if self.finalized[i] == addr {
                return true;
            }
            i = i + 1;
        }
        false
    }

    /// Scans the given words as a conservative root region: every word
    /// that passes the pointer filter of either space names an object,
    /// which is pinned for this cycle and collected as a root.
    pub fn collect_roots(&mut self, words: &Vec<usize>, into: &mut Vec<usize>)
        requires
            old(self).wf(),
        ensures
            final (self).wf(),
            final (self).rttis@ == old(self).rttis@,
            final (self).roots@ == old(self).roots@,
            final (self).collections == old(self).collections,
            final (self).evac_collections == old(self).evac_collections,
            final (self).threshold == old(self).threshold,
            final (self).allocated == old(self).allocated,
            final (self).current_live_mark == old(self).current_live_mark,
            final (self).los.alloc_cursor == old(self).los.alloc_cursor,
            final (into)@.len() >= old(into)@.len(),
            final (into)@.subrange(0, old(into)@.len() as int) == old(into)@,
            // Every appended entry is the canonical address of a discovered
            // object, and that object's header carries the pin bit.
            forall|k: int|
                old(into)@.len() <= k < final (into)@.len() ==> {
                    let a = #[trigger] final (into)@[k] as int;
                    ||| (final (self).immix.spec_bit_at(a) && final (self).immix.spec_in_built_region(a) && crate::util::spec_bit_is_set(
                        final (self).spec_immix_header_at(a),
                        2,
                    ))
                    ||| (exists|c: int|
                        final (self).los.cell_at(c, a) && crate::util::spec_bit_is_set(
                            final (self).los.allocations@[c].header,
                            2,
                        ))
                },
            // Completeness: every word either filter recognises has its
            // canonical object address appended.
            forall|j: int|
                0 <= j < words@.len() && old(self).spec_root_recognized(
                    #[trigger] words@[j] as int,
                ) ==> pushed_after(
                    old(into)@,
                    final (into)@,
                    old(self).spec_root_target(words@[j] as int),
                ),
    {
        let mut i: usize = 0;
        while i < words.len()
            invariant
                self.wf(),
                i <= words@.len(),
                self.rttis@ == old(self).rttis@,
                self.roots@ == old(self).roots@,
                self.collections == old(self).collections,
                self.evac_collections == old(self).evac_collections,
                self.threshold == old(self).threshold,
                self.allocated == old(self).allocated,
                self.current_live_mark == old(self).current_live_mark,
                self.los.alloc_cursor == old(self).los.alloc_cursor,
                into@.len() >= old(into)@.len(),
                into@.subrange(0, old(into)@.len() as int) == old(into)@,
                forall|k: int|
                    old(into)@.len() <= k < into@.len() ==> {
                        let a = #[trigger] into@[k] as int;
                        ||| (self.immix.spec_bit_at(a) && self.immix.spec_in_built_region(a)
                            && crate::util::spec_bit_is_set(self.spec_immix_header_at(a), 2))
                        ||| (exists|c: int|
                            self.los.cell_at(c, a) && crate::util::spec_bit_is_set(
                                self.los.allocations@[c].header,
                                2,
                            ))
                    },
                // The structure both filters read is stable over the scan:
                // bitmaps, block addresses and cell addresses keep, and an
                // installed header never becomes empty.
                self.immix.block_allocator.blocks@.len() == old(
                    self,
                ).immix.block_allocator.blocks@.len(),
                self.immix.block_allocator.mmap == old(self).immix.block_allocator.mmap,
                self.immix.bitmap == old(self).immix.bitmap,
                forall|a: int|
                    old(self).spec_immix_header_at(a) != 0 && old(
                        self,
                    ).immix.spec_in_built_region(a) ==> #[trigger] self.spec_immix_header_at(a)
                        != 0,
                self.los.allocations@.len() == old(self).los.allocations@.len(),
                forall|c: int|
                    0 <= c < self.los.allocations@.len() ==> (
                    #[trigger] self.los.allocations@[c]).at == old(self).los.allocations@[c].at,
                forall|j: int|
                    0 <= j < i && old(self).spec_root_recognized(#[trigger] words@[j] as int)
                        ==> pushed_after(
                        old(into)@,
                        into@,
                        old(self).spec_root_target(words@[j] as int),
                    ),
            decreases words@.len() - i,
        {
            let w = words[i];
            let ghost jw = i as int;
            let ghost wv = w as int;
            i = i + 1;
            if w == 0 {
                continue ;
            }
            let a = util::Address::from(w);
            if crate::large_object_space::PreciseAllocation::is_precise(a) {
                match self.los.find_cell(a) {
                    Some(c) => {
                        // Pin the large cell's header.
                        let ghost pre = *self;
                        let ghost into0 = into@;
                        let h = self.los.header_of(c);
                        let pinned = crate::util::with_bit(h, 2);
                        proof {
                            crate::util::lemma_with_bit(h, 2, 0);
                        }
                        self.los.set_header_of(c, pinned);
                        into.push(w);
                        proof {
                            assert(into@ == into0.push(w));
                            assert(into@.subrange(0, old(into)@.len() as int) =~= old(into)@);
                            assert(self.los.allocations@[c as int].at == pre.los.allocations@[c as int].at);
                            assert(pre.los.cell_at(c as int, w as int));
                            assert(self.los.cell_at(c as int, w as int));
                            assert forall|k: int|
                                old(into)@.len() <= k < into@.len() implies {
                                let aa = #[trigger] into@[k] as int;
                                ||| (self.immix.spec_bit_at(aa) && self.immix.spec_in_built_region(
                                    aa,
                                ) && crate::util::spec_bit_is_set(
                                    self.spec_immix_header_at(aa),
                                    2,
                                ))
                                ||| (exists|cc: int|
                                    self.los.cell_at(cc, aa) && crate::util::spec_bit_is_set(
                                        self.los.allocations@[cc].header,
                                        2,
                                    ))
                            } by {
                                if k < into0.len() {
                                    assert(into@[k] == into0[k]);
                                    let aa = into@[k] as int;
                                    if pre.immix.spec_bit_at(aa)
                                        && pre.immix.spec_in_built_region(aa)
                                        && crate::util::spec_bit_is_set(
                                        pre.spec_immix_header_at(aa),
                                        2,
                                    ) {
                                        assert(self.immix == pre.immix);
                                    } else {
                                        let cc = choose|cc: int|
                                            pre.los.cell_at(cc, aa)
                                                && crate::util::spec_bit_is_set(
                                                pre.los.allocations@[cc].header,
                                                2,
                                            );
                                        if cc == c {
                                            assert(self.los.allocations@[cc].at
                                                == pre.los.allocations@[cc].at);
                                            assert(self.los.allocations@[cc].header == pinned);
                                            assert(crate::util::spec_bit_is_set(pinned, 2));
                                        } else {
                                            assert(self.los.allocations@[cc]
                                                == pre.los.allocations@[cc]);
                                        }
                                        assert(self.los.cell_at(cc, aa));
                                        assert(crate::util::spec_bit_is_set(
                                            self.los.allocations@[cc].header,
                                            2,
                                        ));
                                    }
                                } else {
                                    assert(k == into0.len());
                                    assert(into@[k] == w);
                                    assert(self.los.allocations@[c as int].header == pinned);
                                    assert(crate::util::spec_bit_is_set(pinned, 2));
                                    assert(self.los.cell_at(c as int, w as int)
                                        && crate::util::spec_bit_is_set(
                                        self.los.allocations@[c as int].header,
                                        2,
                                    ));
                                }
                            }
                            // Stability: the cell addresses and the Immix
                            // structure are untouched by the header write.
                            assert(self.immix == pre.immix);
                            assert forall|cc: int|
                                0 <= cc < self.los.allocations@.len() implies (
                            #[trigger] self.los.allocations@[cc]).at == old(
                                self,
                            ).los.allocations@[cc].at by {
                                if cc != c as int {
                                    assert(self.los.allocations@[cc] == pre.los.allocations@[cc]);
                                }
                            }
                            assert forall|aa: int|
                                old(self).spec_immix_header_at(aa) != 0 && old(
                                    self,
                                ).immix.spec_in_built_region(aa) implies #[trigger] self.spec_immix_header_at(
                                aa,
                            ) != 0 by {
                                assert(pre.spec_immix_header_at(aa) != 0);
                                assert(self.spec_immix_header_at(aa) == pre.spec_immix_header_at(
                                    aa,
                                ));
                            }
                            // Completeness: this word resolves to itself.
                            assert(old(self).los.cell_at(c as int, wv));
                            assert(old(self).spec_root_target(wv) == wv);
                            assert(pushed_after(old(into)@, into@, wv)) by {
                                assert(old(into)@.len() <= into0.len() < into@.len()
                                    && into@[into0.len() as int] as int == wv);
                            }
                            assert forall|j: int|
                                0 <= j < jw && old(self).spec_root_recognized(
                                    #[trigger] words@[j] as int,
                                ) implies pushed_after(
                                old(into)@,
                                into@,
                                old(self).spec_root_target(words@[j] as int),
                            ) by {
                                lemma_pushed_after_grow(
                                    old(into)@,
                                    into0,
                                    into@,
                                    old(self).spec_root_target(words@[j] as int),
                                );
                            }
                        }
                        continue ;
                    },
                    None => {},
                }
            }
            match self.immix.filter(a) {
                Some(q) => {
                    let qa = q.to_usize();
                    match self.immix.block_index_for(q) {
                        Some(b) => {
                            let begin = self.immix.block_allocator.blocks[b].begin();
                            let g = (qa - begin) / 16;
                            proof {
                                assert(g < crate::block::BLOCK_GRANULES && g == (qa as int
                                    - self.immix.spec_block(b as int).spec_begin()) / 16) by (
                                nonlinear_arith)
                                    requires
                                        g == (qa - begin) as int / 16,
                                        begin == self.immix.spec_block(b as int).spec_begin(),
                                        0 <= qa - begin < BLOCK_SIZE,
                                        BLOCK_SIZE == 32768,
                                        crate::block::BLOCK_GRANULES == 2048,
                                ;
                            }
                            let h = self.immix.block_allocator.blocks[b].header(g);
                            if h != 0 {
                                let ghost pre = *self;
                                let ghost into0 = into@;
                                let pinned = crate::util::with_bit(h, 2);
                                proof {
                                    crate::util::lemma_with_bit(h, 2, 0);
                                }
                                self.immix.set_block_header(b, g, pinned);
                                into.push(qa);
                                proof {
                                    assert(into@ == into0.push(qa));
                                    assert(into@.subrange(0, old(into)@.len() as int) =~= old(
                                        into,
                                    )@);
                                    assert(self.immix.spec_bit_at(qa as int) == pre.immix.spec_bit_at(
                                        qa as int,
                                    ));
                                    assert(self.immix.spec_block_of(qa as int) == b as int);
                                    assert(self.immix.spec_block(b as int).spec_header(g as int)
                                        == pinned);
                                    assert(self.spec_immix_header_at(qa as int) == pinned);
                                    assert forall|k: int|
                                        old(into)@.len() <= k < into@.len() implies {
                                        let aa = #[trigger] into@[k] as int;
                                        ||| (self.immix.spec_bit_at(aa)
                                            && self.immix.spec_in_built_region(aa)
                                            && crate::util::spec_bit_is_set(
                                            self.spec_immix_header_at(aa),
                                            2,
                                        ))
                                        ||| (exists|cc: int|
                                            self.los.cell_at(cc, aa)
                                                && crate::util::spec_bit_is_set(
                                                self.los.allocations@[cc].header,
                                                2,
                                            ))
                                    } by {
                                        if k < into0.len() {
                                            assert(into@[k] == into0[k]);
                                            let aa = into@[k] as int;
                                            if pre.immix.spec_bit_at(aa)
                                                && pre.immix.spec_in_built_region(aa)
                                                && crate::util::spec_bit_is_set(
                                                pre.spec_immix_header_at(aa),
                                                2,
                                            ) {
                                                assert(self.immix.spec_bit_at(aa)
                                                    == pre.immix.spec_bit_at(aa));
                                                if self.immix.spec_block_of(aa) == b as int && (aa
                                                    - self.immix.spec_block(
                                                    b as int,
                                                ).spec_begin()) / 16 == g as int {
                                                    assert(self.spec_immix_header_at(aa)
                                                        == pinned);
                                                    assert(crate::util::spec_bit_is_set(
                                                        pinned,
                                                        2,
                                                    ));
                                                } else {
                                                    if self.immix.spec_block_of(aa) != b as int {
                                                        assert(self.immix.spec_block(
                                                            self.immix.spec_block_of(aa),
                                                        ) == pre.immix.spec_block(
                                                            pre.immix.spec_block_of(aa),
                                                        ));
                                                    }
                                                    assert(self.spec_immix_header_at(aa)
                                                        == pre.spec_immix_header_at(aa));
                                                }
                                            } else {
                                                assert(self.los == pre.los);
                                            }
                                        } else {
                                            assert(k == into0.len());
                                            assert(into@[k] == qa);
                                            assert(self.immix.spec_bit_at(qa as int));
                                            assert(self.immix.spec_in_built_region(qa as int));
                                            assert(crate::util::spec_bit_is_set(
                                                self.spec_immix_header_at(qa as int),
                                                2,
                                            ));
                                        }
                                    }
                                    // Stability: cell addresses keep, and
                                    // the one rewritten header stays
                                    // installed.
                                    assert(self.los == pre.los);
                                    assert forall|cc: int|
                                        0 <= cc < self.los.allocations@.len() implies (
                                    #[trigger] self.los.allocations@[cc]).at == old(
                                        self,
                                    ).los.allocations@[cc].at by {
                                        assert(self.los.allocations@[cc]
                                            == pre.los.allocations@[cc]);
                                    }
                                    assert forall|aa: int|
                                        old(self).spec_immix_header_at(aa) != 0 && old(
                                            self,
                                        ).immix.spec_in_built_region(aa) implies #[trigger] self.spec_immix_header_at(
                                        aa,
                                    ) != 0 by {
                                        assert(pre.spec_immix_header_at(aa) != 0);
                                        if self.immix.spec_block_of(aa) == b as int && (aa
                                            - self.immix.spec_block(b as int).spec_begin()) / 16
                                            == g as int {
                                            assert(self.spec_immix_header_at(aa) == pinned);
                                        } else {
                                            if self.immix.spec_block_of(aa) != b as int {
                                                assert(self.immix.spec_block(
                                                    self.immix.spec_block_of(aa),
                                                ) == pre.immix.spec_block(
                                                    pre.immix.spec_block_of(aa),
                                                ));
                                            }
                                            assert(self.spec_immix_header_at(aa)
                                                == pre.spec_immix_header_at(aa));
                                        }
                                    }
                                    // Completeness: the word resolves to the
                                    // canonical address just pushed.
                                    assert(old(self).spec_root_recognized(wv) ==> old(
                                        self,
                                    ).spec_root_target(wv) == qa as int) by {
                                        if old(self).spec_root_recognized(wv) {
                                            if crate::large_object_space::spec_is_precise(wv)
                                                && old(self).los.spec_contains(wv) {
                                                let cc = choose|cc: int|
                                                    old(self).los.cell_at(cc, wv);
                                                assert(pre.los.allocations@[cc].at == old(
                                                    self,
                                                ).los.allocations@[cc].at);
                                                assert(pre.los.cell_at(cc, wv));
                                            } else {
                                                assert(pre.immix.spec_bit_at(wv) == old(
                                                    self,
                                                ).immix.spec_bit_at(wv));
                                                if old(self).immix.spec_bit_at(wv) {
                                                    assert(qa as int == wv);
                                                } else {
                                                    assert(wv >= 8 ==> pre.immix.spec_bit_at(
                                                        wv - 8,
                                                    ) == old(self).immix.spec_bit_at(wv - 8));
                                                    assert(qa as int == wv - 8);
                                                }
                                            }
                                        }
                                    }
                                    assert(pushed_after(old(into)@, into@, qa as int)) by {
                                        assert(old(into)@.len() <= into0.len() < into@.len()
                                            && into@[into0.len() as int] as int == qa as int);
                                    }
                                    assert forall|j: int|
                                        0 <= j < jw && old(self).spec_root_recognized(
                                            #[trigger] words@[j] as int,
                                        ) implies pushed_after(
                                        old(into)@,
                                        into@,
                                        old(self).spec_root_target(words@[j] as int),
                                    ) by {
                                        lemma_pushed_after_grow(
                                            old(into)@,
                                            into0,
                                            into@,
                                            old(self).spec_root_target(words@[j] as int),
                                        );
                                    }
                                }
                            } else {
                                proof {
                                    assert(self.spec_immix_header_at(qa as int) == 0);
                                    if old(self).spec_root_recognized(wv) {
                                        if crate::large_object_space::spec_is_precise(wv) && old(
                                            self,
                                        ).los.spec_contains(wv) {
                                            let cc = choose|cc: int| old(self).los.cell_at(cc, wv);
                                            assert(self.los.allocations@[cc].at == old(
                                                self,
                                            ).los.allocations@[cc].at);
                                            assert(self.los.cell_at(cc, wv));
                                            assert(false);
                                        } else {
                                            assert(self.immix.spec_bit_at(wv) == old(
                                                self,
                                            ).immix.spec_bit_at(wv));
                                            assert(self.immix.spec_in_built_region(qa as int)
                                                == old(self).immix.spec_in_built_region(
                                                qa as int,
                                            ));
                                            if old(self).immix.spec_bit_at(wv) {
                                                assert(qa as int == wv);
                                            } else {
                                                assert(wv >= 8 ==> self.immix.spec_bit_at(wv - 8)
                                                    == old(self).immix.spec_bit_at(wv - 8));
                                                assert(qa as int == wv - 8);
                                            }
                                            assert(old(self).spec_immix_header_at(qa as int) != 0
                                                && old(self).immix.spec_in_built_region(
                                                qa as int,
                                            ));
                                            assert(self.spec_immix_header_at(qa as int) != 0);
                                            assert(false);
                                        }
                                    }
                                    assert(!old(self).spec_root_recognized(wv));
                                }
                            }
                        },
                        None => {
                            proof {
                                if old(self).spec_root_recognized(wv) {
                                    if crate::large_object_space::spec_is_precise(wv) && old(
                                        self,
                                    ).los.spec_contains(wv) {
                                        let cc = choose|cc: int| old(self).los.cell_at(cc, wv);
                                        assert(self.los.allocations@[cc].at == old(
                                            self,
                                        ).los.allocations@[cc].at);
                                        assert(self.los.cell_at(cc, wv));
                                        assert(false);
                                    } else {
                                        assert(self.immix.spec_bit_at(wv) == old(
                                            self,
                                        ).immix.spec_bit_at(wv));
                                        assert(self.immix.spec_in_built_region(qa as int) == old(
                                            self,
                                        ).immix.spec_in_built_region(qa as int));
                                        if old(self).immix.spec_bit_at(wv) {
                                            assert(qa as int == wv);
                                        } else {
                                            assert(wv >= 8 ==> self.immix.spec_bit_at(wv - 8)
                                                == old(self).immix.spec_bit_at(wv - 8));
                                            assert(qa as int == wv - 8);
                                        }
                                        assert(old(self).immix.spec_in_built_region(qa as int));
                                        assert(false);
                                    }
                                }
                                assert(!old(self).spec_root_recognized(wv));
                            }
                        },
                    }
                },
                None => {
                    proof {
                        if old(self).spec_root_recognized(wv) {
                            if crate::large_object_space::spec_is_precise(wv) && old(
                                self,
                            ).los.spec_contains(wv) {
                                let cc = choose|cc: int| old(self).los.cell_at(cc, wv);
                                assert(self.los.allocations@[cc].at == old(
                                    self,
                                ).los.allocations@[cc].at);
                                assert(self.los.cell_at(cc, wv));
                                assert(false);
                            } else {
                                assert(self.immix.spec_bit_at(wv) == old(self).immix.spec_bit_at(
                                    wv,
                                ));
                                assert(wv >= 8 ==> self.immix.spec_bit_at(wv - 8) == old(
                                    self,
                                ).immix.spec_bit_at(wv - 8));
                                assert(false);
                            }
                        }
                        assert(!old(self).spec_root_recognized(wv));
                    }
                },
            }
        }
    }

    /// Unpins every object in `pinned` after the cycle.
    fn unpin_roots(&mut self, pinned: &Vec<usize>)
        requires
            old(self).wf(),
        ensures
            final (self).wf(),
            final (self).rttis@ == old(self).rttis@,
            final (self).roots@ == old(self).roots@,
            final (self).collections == old(self).collections,
            final (self).evac_collections == old(self).evac_collections,
            final (self).threshold == old(self).threshold,
            final (self).allocated == old(self).allocated,
            final (self).current_live_mark == old(self).current_live_mark,
            final (self).los.alloc_cursor == old(self).los.alloc_cursor,
            // Unpinning clears pin bits only: whatever address was marked
            // for a polarity stays marked for it.
            forall|a: int, m: bool|
                crate::collector::root_marked(&old(self).immix, &old(self).los, a, m)
                    ==> #[trigger] crate::collector::root_marked(
                    &final (self).immix,
                    &final (self).los,
                    a,
                    m,
                ),
    {
        let mut i: usize = 0;
        while i < pinned.len()
            invariant
                self.wf(),
                i <= pinned@.len(),
                self.rttis@ == old(self).rttis@,
                self.roots@ == old(self).roots@,
                self.collections == old(self).collections,
                self.evac_collections == old(self).evac_collections,
                self.threshold == old(self).threshold,
                self.allocated == old(self).allocated,
                self.current_live_mark == old(self).current_live_mark,
                self.los.alloc_cursor == old(self).los.alloc_cursor,
                self.immix.block_allocator.mmap == old(self).immix.block_allocator.mmap,
                self.immix.block_allocator.blocks@.len() == old(
                    self,
                ).immix.block_allocator.blocks@.len(),
                forall|bb: int, gg: int|
                    0 <= bb < self.immix.block_allocator.blocks@.len() && 0 <= gg
                        < crate::block::BLOCK_GRANULES ==> {
                        let h0 = old(self).immix.spec_block(bb).spec_header(gg);
                        let h1 = #[trigger] self.immix.spec_block(bb).spec_header(gg);
                        &&& (h0 == 0 ==> h1 == 0)
                        &&& crate::util::spec_bit_is_set(h1, 0) == crate::util::spec_bit_is_set(
                            h0,
                            0,
                        )
                        &&& crate::util::spec_bit_is_set(h1, 1) == crate::util::spec_bit_is_set(
                            h0,
                            1,
                        )
                    },
                self.los.allocations@.len() == old(self).los.allocations@.len(),
                forall|c: int|
                    0 <= c < self.los.allocations@.len() ==> (
                    #[trigger] self.los.allocations@[c]).at == old(self).los.allocations@[c].at
                        && crate::util::spec_bit_is_set(self.los.allocations@[c].header, 0)
                        == crate::util::spec_bit_is_set(old(self).los.allocations@[c].header, 0),
            decreases pinned@.len() - i,
        {
            let w = pinned[i];
            i = i + 1;
            let a = util::Address::from(w);
            if crate::large_object_space::PreciseAllocation::is_precise(a) {
                match self.los.find_cell(a) {
                    Some(c) => {
                        let ghost pre = *self;
                        let h = self.los.header_of(c);
                        self.los.set_header_of(c, crate::util::without_bit(h, 2));
                        proof {
                            crate::util::lemma_without_bit(h, 2, 0);
                            assert(self.immix == pre.immix);
                            assert forall|cc: int|
                                0 <= cc < self.los.allocations@.len() implies (
                            #[trigger] self.los.allocations@[cc]).at == old(
                                self,
                            ).los.allocations@[cc].at && crate::util::spec_bit_is_set(
                                self.los.allocations@[cc].header,
                                0,
                            ) == crate::util::spec_bit_is_set(
                                old(self).los.allocations@[cc].header,
                                0,
                            ) by {
                                if cc != c as int {
                                    assert(self.los.allocations@[cc] == pre.los.allocations@[cc]);
                                } else {
                                    assert(self.los.allocations@[cc].at
                                        == pre.los.allocations@[cc].at);
                                    assert(crate::util::spec_bit_is_set(
                                        self.los.allocations@[cc].header,
                                        0,
                                    ) == crate::util::spec_bit_is_set(h, 0));
                                }
                            }
                        }
                    },
                    None => {},
                }
                continue ;
            }
            if w % 16 != 0 {
                continue ;
            }
            match self.immix.block_index_for(a) {
                Some(b) => {
                    let begin = self.immix.block_allocator.blocks[b].begin();
                    let g = (w - begin) / 16;
                    proof {
                        assert(g < crate::block::BLOCK_GRANULES) by (nonlinear_arith)
                            requires
                                g == (w - begin) as int / 16,
                                0 <= w - begin < BLOCK_SIZE,
                                BLOCK_SIZE == 32768,
                                crate::block::BLOCK_GRANULES == 2048,
                        ;
                    }
                    let h = self.immix.block_allocator.blocks[b].header(g);
                    if h != 0 {
                        let ghost pre = *self;
                        self.immix.set_block_header(b, g, crate::util::without_bit(h, 2));
                        proof {
                            crate::util::lemma_without_bit(h, 2, 0);
                            crate::util::lemma_without_bit(h, 2, 1);
                            assert(self.los == pre.los);
                            assert forall|bb: int, gg: int|
                                0 <= bb < self.immix.block_allocator.blocks@.len() && 0 <= gg
                                    < crate::block::BLOCK_GRANULES implies {
                                let h0 = old(self).immix.spec_block(bb).spec_header(gg);
                                let h1 = #[trigger] self.immix.spec_block(bb).spec_header(gg);
                                &&& (h0 == 0 ==> h1 == 0)
                                &&& crate::util::spec_bit_is_set(h1, 0)
                                    == crate::util::spec_bit_is_set(h0, 0)
                                &&& crate::util::spec_bit_is_set(h1, 1)
                                    == crate::util::spec_bit_is_set(h0, 1)
                            } by {
                                if bb == b as int && gg == g as int {
                                    assert(self.immix.spec_block(bb).spec_header(gg)
                                        == crate::util::spec_without_bit(h, 2));
                                    assert(pre.immix.spec_block(bb).spec_header(gg) == h);
                                } else if bb != b as int {
                                    assert(self.immix.block_allocator.blocks@[bb]
                                        == pre.immix.block_allocator.blocks@[bb]);
                                    assert(self.immix.spec_block(bb).spec_header(gg)
                                        == pre.immix.spec_block(bb).spec_header(gg));
                                } else {
                                    assert(self.immix.spec_block(bb).headers@
                                        == pre.immix.spec_block(bb).headers@.update(
                                        g as int,
                                        crate::util::spec_without_bit(h, 2),
                                    ));
                                    assert(self.immix.spec_block(bb).spec_header(gg)
                                        == pre.immix.spec_block(bb).spec_header(gg));
                                }
                                assert((old(self).immix.spec_block(bb).spec_header(gg) == 0
                                    ==> pre.immix.spec_block(bb).spec_header(gg) == 0)
                                    && crate::util::spec_bit_is_set(
                                    pre.immix.spec_block(bb).spec_header(gg),
                                    0,
                                ) == crate::util::spec_bit_is_set(
                                    old(self).immix.spec_block(bb).spec_header(gg),
                                    0,
                                ) && crate::util::spec_bit_is_set(
                                    pre.immix.spec_block(bb).spec_header(gg),
                                    1,
                                ) == crate::util::spec_bit_is_set(
                                    old(self).immix.spec_block(bb).spec_header(gg),
                                    1,
                                ));
                            }
                        }
                    }
                },
                None => {},
            }
        }
        proof {
            assert forall|a: int, m: bool|
                crate::collector::root_marked(&old(self).immix, &old(self).los, a, m) implies
            #[trigger] crate::collector::root_marked(&self.immix, &self.los, a, m) by {
                crate::collector::lemma_root_marked_tags_kept(
                    &old(self).immix,
                    &old(self).los,
                    &self.immix,
                    &self.los,
                    a,
                    m,
                );
            }
        }
    }

    /// Runs one stop-the-world cycle: harvests the mutator's blocks,
    /// collects conservative roots from `cons_words`, decides the cycle
    /// kind, traces, processes the finalizer queue, flips the mark
    /// polarity, and resets the allocated-byte counter to the visited byte
    /// total.  The trigger threshold is raised to the larger of itself and
    /// 1.75 times the live bytes.
    pub fn collect_internal(&mut self, evacuation: bool, emergency: bool, cons_words: &Vec<usize>)
        -> (r: (usize, bool))
        requires
            old(self).wf(),
        ensures
            final (self).wf(),
            // A completed cycle resets the allocated counter to the
            // visited bytes, flips the polarity, advances the counter and
            // raises the threshold to the larger of itself and 1.75 times
            // the visited bytes.
            r.1 ==> final (self).allocated == r.0,
            r.1 ==> final (self).current_live_mark == !old(self).current_live_mark,
            r.1 ==> final (self).collections == old(self).collections + 1 || final (self).collections == usize::MAX,
            r.1 ==> ({
                let grown = r.0 as int + (3 * r.0 as int) / 4;
                let capped = if grown <= usize::MAX {
                    grown
                } else {
                    usize::MAX as int
                };
                final (self).threshold == if old(self).threshold >= capped {
                    old(self).threshold as int
                } else {
                    capped
                }
            }),
            // An emergency with evacuation enabled runs an evacuating
            // cycle.
            r.1 && emergency && crate::constants::USE_EVACUATION && old(self).evac_collections
                < usize::MAX ==> final (self).evac_collections == old(self).evac_collections + 1,
            // An abandoned cycle reclaims nothing and commits nothing: the
            // polarity, the counters and the threshold are untouched.
            !r.1 ==> r.0 == 0 && final (self).current_live_mark == old(self).current_live_mark
                && final (self).allocated == old(self).allocated && final (self).threshold == old(self).threshold && final (self).collections == old(self).collections && final (self).evac_collections == old(self).evac_collections,
            final (self).roots@.len() == old(self).roots@.len(),
            final (self).rttis@ == old(self).rttis@,
            final (self).los.alloc_cursor == old(self).los.alloc_cursor,
            // After a completed cycle that did not evacuate, every
            // conservative word the root filter recognised names an object
            // bearing the new polarity.
            (r.1 && old(self).evac_collections < usize::MAX && final (self).evac_collections
                == old(self).evac_collections) ==> forall|j: int|
                0 <= j < cons_words@.len() && old(self).spec_root_recognized(
                    #[trigger] cons_words@[j] as int,
                ) ==> crate::collector::root_marked(
                    &final (self).immix,
                    &final (self).los,
                    old(self).spec_root_target(cons_words@[j] as int),
                    !old(self).current_live_mark,
                ),
    {
        let mut pinned: Vec<usize> = Vec::new();
        self.collect_roots(cons_words, &mut pinned);
        let all_blocks = self.immix.get_all_blocks();
        self.collector.extend_all_blocks(&all_blocks);
        let available = if self.immix.block_allocator.free_blocks.len() <= usize::MAX - (
        self.immix.block_allocator.data_bound - self.immix.block_allocator.data) / BLOCK_SIZE {
            self.immix.block_allocator.available_blocks()
        } else {
            usize::MAX
        };
        let headroom = self.immix.evac_headroom();
        let total = self.immix.block_allocator.total_blocks();
        let ctype = self.collector.prepare_collection(
            evacuation,
            true,
            available,
            headroom,
            total,
            emergency,
            &mut self.immix,
        );
        let next_mark = !self.current_live_mark;
        let ghost gtype = ctype;
        let (visited, complete) = self.collector.collect(
            &ctype,
            &pinned,
            &mut self.roots,
            &mut self.immix,
            &mut self.los,
            &self.rttis,
            &mut self.finalized,
            next_mark,
        );
        let ghost s_m = self.immix;
        let ghost l_m = self.los;
        self.unpin_roots(&pinned);
        let ghost s_u = self.immix;
        let ghost l_u = self.los;
        if !complete {
            // Marking was abandoned and every mark taken back: commit
            // nothing of this cycle.
            return (0, false);
        }
        self.process_finalizer_queue(next_mark);
        self.current_live_mark = next_mark;
        self.immix.set_current_live_mark(next_mark);
        self.los.current_live_mark = next_mark;
        self.allocated = visited;
        let extra = visited / 4 * 3 + visited % 4 * 3 / 4;
        proof {
            assert(extra == (3 * visited as int) / 4 && visited as int / 4 * 3 <= usize::MAX - 9)
                by (nonlinear_arith)
                requires
                    extra == visited as int / 4 * 3 + visited as int % 4 * 3 / 4,
                    0 <= visited <= usize::MAX,
            ;
        }
        let grown = if visited <= usize::MAX - extra {
            visited + extra
        } else {
            usize::MAX
        };
        if grown > self.threshold {
            self.threshold = grown;
        }
        self.collections = if self.collections < usize::MAX {
            self.collections + 1
        } else {
            self.collections
        };
        match ctype {
            CollectionType::ImmixEvacCollection => {
                self.evac_collections = if self.evac_collections < usize::MAX {
                    self.evac_collections + 1
                } else {
                    self.evac_collections
                };
            },
            CollectionType::ImmixCollection => {},
        }
        proof {
            if old(self).evac_collections < usize::MAX && self.evac_collections == old(
                self,
            ).evac_collections {
                assert(gtype is ImmixCollection);
                assert forall|j: int|
                    0 <= j < cons_words@.len() && old(self).spec_root_recognized(
                        #[trigger] cons_words@[j] as int,
                    ) implies crate::collector::root_marked(
                    &self.immix,
                    &self.los,
                    old(self).spec_root_target(cons_words@[j] as int),
                    next_mark,
                ) by {
                    let t = old(self).spec_root_target(cons_words@[j] as int);
                    let k = choose|k: int| 0 <= k < pinned@.len() && pinned@[k] as int == t;
                    assert(crate::collector::root_marked(&s_m, &l_m, pinned@[k] as int, next_mark));
                    assert(crate::collector::root_marked(&s_u, &l_u, t, next_mark));
                    crate::collector::lemma_root_marked_tags_kept(
                        &s_u,
                        &l_u,
                        &self.immix,
                        &self.los,
                        t,
                        next_mark,
                    );
                }
            }
        }
        (visited, true)
    }

    /// Walks the finalizer queue: every entry whose mark bears the new
    /// polarity and whose type still asks for finalization is finalized
    /// and removed.
    fn process_finalizer_queue(&mut self, next_mark: bool)
        requires
            old(self).wf(),
        ensures
            final (self).wf(),
            final (self).rttis@ == old(self).rttis@,
            final (self).roots@ == old(self).roots@,
            final (self).collections == old(self).collections,
            final (self).evac_collections == old(self).evac_collections,
            final (self).threshold == old(self).threshold,
            final (self).allocated == old(self).allocated,
            final (self).current_live_mark == old(self).current_live_mark,
            final (self).los.alloc_cursor == old(self).los.alloc_cursor,
            // The walk only reads the heap: it records addresses and trims
            // its own queue.
            final (self).immix == old(self).immix,
            final (self).los == old(self).los,
    {
        let n = self.to_finalize.len();
        let mut keep: Vec<usize> = Vec::new();
        let mut k: usize = 0;
        while k < n
            invariant
                self.wf(),
                n == self.to_finalize@.len(),
                k <= n,
                self.rttis@ == old(self).rttis@,
                self.roots@ == old(self).roots@,
                self.collections == old(self).collections,
                self.evac_collections == old(self).evac_collections,
                self.threshold == old(self).threshold,
                self.allocated == old(self).allocated,
                self.current_live_mark == old(self).current_live_mark,
                self.los.alloc_cursor == old(self).los.alloc_cursor,
                self.immix == old(self).immix,
                self.los == old(self).los,
            decreases n - k,
        {
            let addr = self.to_finalize[k];
            k = k + 1;
            let mut fin = false;
            if addr % 16 == 0 {
                match self.immix.block_index_for(util::Address::from(addr)) {
                    Some(b) => {
                        let begin = self.immix.block_allocator.blocks[b].begin();
                        let g = (addr - begin) / 16;
                        proof {
                            assert(g < crate::block::BLOCK_GRANULES) by (nonlinear_arith)
                                requires
                                    g == (addr - begin) as int / 16,
                                    0 <= addr - begin < BLOCK_SIZE,
                                    BLOCK_SIZE == 32768,
                                    crate::block::BLOCK_GRANULES == 2048,
                            ;
                        }
                        let h = self.immix.block_allocator.blocks[b].header(g);
                        if h != 0 && !crate::util::bit_is_set(h, 1) && crate::util::bit_is_set(
                            h,
                            0,
                        ) == next_mark {
                            let vt = crate::util::untagged(h);
                            if vt >= 8 && vt % 8 == 0 && vt <= usize::MAX as u64 {
                                let idx = (vt / 8 - 1) as usize;
                                if idx < self.rttis.len() && self.rttis[idx].needs_finalization {
                                    self.finalized.push(addr);
                                    fin = true;
                                }
                            }
                        }
                    },
                    None => {},
                }
            }
            if !fin {
                keep.push(addr);
            }
        }
        self.to_finalize = keep;
    }

    /// Allocates `size` bytes of payload for an object of descriptor
    /// `rtti_id` and installs the header, marked with the current
    /// polarity.  A cycle is forced first once the allocated bytes reach
    /// the threshold; when the Immix space is exhausted an emergency
    /// evacuating cycle runs and the allocation is retried once.  Returns
    /// the object's address, or zero when the heap is truly full.
    #[verifier::rlimit(100)]
    #[verifier::spinoff_prover]
    pub fn allocate(&mut self, size: usize, rtti_id: usize) -> (r: usize)
        requires
            old(self).wf(),
            rtti_id < old(self).rttis@.len(),
            size == old(self).rttis@[rtti_id as int].heap_size,
            1 <= size,
        ensures
            final (self).wf(),
            final (self).rttis@ == old(self).rttis@,
            // The returned address is recognisable by the pointer filters:
            // a large object carries the half-alignment tag and is found
            // in the large-object space; any other object has its
            // object-start bit set.
            r != 0 && size >= LARGE_OBJECT ==> crate::large_object_space::spec_is_precise(r as int)
                && final (self).los.spec_contains(r as int),
            r != 0 && size < LARGE_OBJECT ==> final (self).immix.spec_bit_at(r as int),
            // The installed header carries the descriptor and the current
            // polarity, and is neither forwarded nor pinned.
            r != 0 && size < LARGE_OBJECT ==> ({
                let h = final (self).spec_immix_header_at(r as int);
                &&& crate::util::spec_untagged(h) == crate::object::spec_vtable_for_index(
                    rtti_id as int,
                )
                &&& crate::util::spec_bit_is_set(h, 0) == final (self).current_live_mark
                &&& !crate::util::spec_bit_is_set(h, 1)
                &&& !crate::util::spec_bit_is_set(h, 2)
            }),
            r != 0 && size >= LARGE_OBJECT ==> ({
                let h = final (self).los.allocations@.last().header;
                &&& crate::util::spec_untagged(h) == crate::object::spec_vtable_for_index(
                    rtti_id as int,
                )
                &&& crate::util::spec_bit_is_set(h, 0) == final (self).current_live_mark
                &&& !crate::util::spec_bit_is_set(h, 1)
            }),
            // Between cycles the allocated-byte counter grows by exactly
            // the requested size rounded up to 16 bytes, saturating only
            // at the machine limit.
            final (self).collections == old(self).collections && old(self).collections
                < usize::MAX && r != 0 ==> final (self).allocated as int == if old(self).allocated
                + ((size + 15) as int / 16) * 16 <= usize::MAX {
                old(self).allocated + ((size + 15) as int / 16) * 16
            } else {
                usize::MAX as int
            },
            // While the trigger is not due and the space has room, no
            // cycle runs at all.
            old(self).allocated < old(self).threshold && size < LARGE_OBJECT && old(self).immix.block_allocator.data + BLOCK_SIZE <= old(self).immix.block_allocator.data_bound
                ==> final (self).collections == old(self).collections,
            old(self).allocated < old(self).threshold && size >= LARGE_OBJECT ==> final (self).collections == old(self).collections,
            // While the trigger is not due, a small or medium request
            // cannot fail as long as a whole block remains uncarved, and a
            // large request cannot fail while the large-object address
            // space lasts.
            old(self).allocated < old(self).threshold && size < LARGE_OBJECT && old(self).immix.block_allocator.data + BLOCK_SIZE <= old(self).immix.block_allocator.data_bound
                ==> r != 0,
            old(self).allocated < old(self).threshold && size >= LARGE_OBJECT && old(self).los.alloc_cursor + crate::object::spec_object_size(size as int) + 48 <= usize::MAX
                && old(self).los.allocations@.len() < u32::MAX ==> r != 0,
            // Zero is returned only on exhaustion: a small or medium
            // request fails only when, after the emergency cycle and the
            // retry, nothing is left to carve and the free pool is empty;
            // a large request fails only when the large-object address
            // space or index room is out.
            r == 0 && size < LARGE_OBJECT && size <= usize::MAX - 64 ==> final (self).immix.block_allocator.free_blocks@.len() == 0 && final (self).immix.block_allocator.data + BLOCK_SIZE > final (self).immix.block_allocator.data_bound,
            r == 0 && size >= LARGE_OBJECT && size <= usize::MAX - 64 ==> final (self).los.alloc_cursor + crate::object::spec_object_size(size as int) + 48 > usize::MAX
                || final (self).los.allocations@.len() >= u32::MAX,
    {
        if size > usize::MAX - 64 {
            proof {
                assert(crate::object::spec_object_size(size as int) + 48 > usize::MAX) by (
                nonlinear_arith)
                    requires
                        size > usize::MAX - 64,
                        crate::object::spec_object_size(size as int) == ((size + 8 + 15) as int
                            / 16) * 16,
                ;
            }
            return 0;
        }
        if self.allocated >= self.threshold {
            let none: Vec<usize> = Vec::new();
            let _cycle = self.collect_internal(false, false, &none);
        }
        let asize = align_usize(size + crate::object::HEADER_SIZE, 16);
        let rounded = align_usize(size, 16);
        proof {
            assert(asize % 16 == 0 && asize >= 16 && asize >= size + 8 && asize <= size + 23
                && asize == crate::object::spec_object_size(size as int) && rounded == ((size
                + 15) as int / 16) * 16) by (nonlinear_arith)
                requires
                    asize == ((size + 8 + 15) as int / 16) * 16,
                    rounded == ((size + 15) as int / 16) * 16,
                    crate::object::spec_object_size(size as int) == ((size + 8 + 15) as int / 16)
                        * 16,
                    1 <= size,
            ;
            assert((rtti_id + 1) * 8 <= usize::MAX) by (nonlinear_arith)
                requires
                    rtti_id < 0x10000000,
            ;
        }
        let vtable = crate::object::vtable_for_index(rtti_id);
        let r = if size >= LARGE_OBJECT {
            let a = self.los.allocate(asize, vtable);
            a.to_usize()
        } else {
            let mut a = self.immix.allocate(size);
            if a == 0 {
                let none: Vec<usize> = Vec::new();
                let _cycle = self.collect_internal(true, true, &none);
                a = self.immix.allocate(size);
                if a == 0 {
                    return 0;
                }
            }
            // Install the header with the current polarity.
            let mut hdr = crate::object::RawGc::new(vtable);
            proof {
                crate::util::lemma_untagged(vtable as u64, 0);
            }
            hdr.mark(self.current_live_mark);
            let ghost before_install = self.immix;
            match self.immix.block_index_for(util::Address::from(a)) {
                Some(b) => {
                    let begin = self.immix.block_allocator.blocks[b].begin();
                    let g = (a - begin) / 16;
                    proof {
                        assert(g < crate::block::BLOCK_GRANULES && g == (a as int
                            - self.immix.spec_block(b as int).spec_begin()) / 16) by (
                        nonlinear_arith)
                            requires
                                g == (a - begin) as int / 16,
                                begin == self.immix.spec_block(b as int).spec_begin(),
                                0 <= a - begin < BLOCK_SIZE,
                                BLOCK_SIZE == 32768,
                                crate::block::BLOCK_GRANULES == 2048,
                        ;
                    }
                    self.immix.set_block_header(b, g, hdr.vtable.raw);
                    proof {
                        assert(self.immix.spec_bit_at(a as int) == before_install.spec_bit_at(
                            a as int,
                        ));
                        assert(self.spec_immix_header_at(a as int) == hdr.vtable.raw);
                    }
                },
                None => {
                    proof {
                        assert(false);
                    }
                },
            }
            a
        };
        if r != 0 && size < LARGE_OBJECT && self.rttis[rtti_id].needs_finalization {
            self.to_finalize.push(r);
        }
        if r != 0 {
            self.allocated = if self.allocated <= usize::MAX - rounded {
                self.allocated + rounded
            } else {
                usize::MAX
            };
        }
        r
    }
}

/// Builds a heap with the documented defaults: a heap of less than 512 KiB
/// falls back to sixteen blocks with a 100 KiB threshold; otherwise a zero
/// threshold defaults to thirty percent of the heap size.
pub fn immix_init(heap_size: usize, threshold: usize) -> (r: Immix)
    requires
        heap_size + 17 * BLOCK_SIZE <= usize::MAX,
    ensures
        r.wf(),
        heap_size <= 512 * 1024 ==> r.threshold == 100 * 1024,
        heap_size > 512 * 1024 && threshold == 0 ==> r.threshold == 3 * heap_size as int / 10,
        heap_size > 512 * 1024 && threshold != 0 ==> r.threshold == threshold,
        // A heap below the floor falls back to sixteen blocks.
        heap_size <= 512 * 1024 ==> r.immix.spec_total_blocks() == 16,
        r.allocated == 0,
        r.collections == 0,
        r.rttis@.len() == 0,
        r.roots@.len() == 0,
        // However small the request, the clamped heap starts with room for
        // at least one block and an empty large-object space.
        r.immix.block_allocator.data + BLOCK_SIZE <= r.immix.block_allocator.data_bound,
        r.los.allocations@.len() == 0,
        r.los.alloc_cursor <= (if heap_size <= 512 * 1024 {
            16 * (BLOCK_SIZE as int)
        } else {
            heap_size as int
        }) + 3 * BLOCK_SIZE,
{
    let mut size = heap_size;
    let mut th = threshold;
    if size == 0 || size <= 512 * 1024 {
        size = 16 * BLOCK_SIZE;
        th = 100 * 1024;
    } else if th == 0 {
        th = 3 * (size / 10) + (3 * (size % 10)) / 10;
        proof {
            assert(3 * ((heap_size as int) / 10) + (3 * ((heap_size as int) % 10)) / 10 == 3
                * heap_size as int / 10) by (nonlinear_arith);
        }
    }
    Immix::new(size, th)
}

/// Allocates `size` bytes for an object of descriptor `rtti_id` in `heap`;
/// zero means the heap is exhausted.
pub fn immix_alloc(heap: &mut Immix, size: usize, rtti_id: usize) -> (r: usize)
    requires
        old(heap).wf(),
        rtti_id < old(heap).rttis@.len(),
        size == old(heap).rttis@[rtti_id as int].heap_size,
        1 <= size,
    ensures
        final (heap).wf(),
        r != 0 && size >= LARGE_OBJECT ==> crate::large_object_space::spec_is_precise(r as int)
            && final (heap).los.spec_contains(r as int),
        r != 0 && size < LARGE_OBJECT ==> final (heap).immix.spec_bit_at(r as int),
        // While the trigger is not due, allocation cannot fail as long as
        // the relevant space has room.
        old(heap).allocated < old(heap).threshold && size < LARGE_OBJECT && old(
            heap,
        ).immix.block_allocator.data + BLOCK_SIZE <= old(heap).immix.block_allocator.data_bound
            ==> r != 0,
        old(heap).allocated < old(heap).threshold && size >= LARGE_OBJECT && old(
            heap,
        ).los.alloc_cursor + crate::object::spec_object_size(size as int) + 48 <= usize::MAX
            && old(heap).los.allocations@.len() < u32::MAX ==> r != 0,
{
    heap.allocate(size, rtti_id)
}

/// Triggers a collection; objects may move when `move_objects` is set.
pub fn immix_collect(heap: &mut Immix, move_objects: bool) -> (r: (usize, bool))
    requires
        old(heap).wf(),
    ensures
        final (heap).wf(),
        r.1 ==> final (heap).allocated == r.0,
        r.1 ==> final (heap).current_live_mark == !old(heap).current_live_mark,
        r.1 ==> final (heap).collections == old(heap).collections + 1 || final (heap).collections
            == usize::MAX,
        !r.1 ==> r.0 == 0 && final (heap).allocated == old(heap).allocated,
{
    let none: Vec<usize> = Vec::new();
    heap.collect_internal(move_objects, false, &none)
}

} // verus!
