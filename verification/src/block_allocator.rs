//! The block allocator.
//!
//! One contiguous region of the address space is reserved up front.  A
//! cursor hands out `BLOCK_SIZE`-aligned blocks from the region until it is
//! exhausted; returned blocks go onto a free list and are handed out again
//! before the cursor advances any further.

use vstd::prelude::*;

use crate::block::ImmixBlock;
use crate::constants::BLOCK_SIZE;
use crate::util::Address;

verus! {

/// A reservation of `size` bytes of the model's address space, starting at
/// `start`.
pub struct Mmap {
    /// First address of the reservation.
    pub start: usize,
    /// First address past the reservation.
    pub stop: usize,
}

impl Mmap {
    /// A reservation lies in addressable memory and leaves room for the
    /// alignment offset.
    pub open spec fn wf(&self) -> bool {
        &&& self.start % BLOCK_SIZE == 0
        &&& self.start > 0
        &&& self.start <= self.stop
        &&& self.stop + 2 * BLOCK_SIZE <= usize::MAX
    }

    /// Reserves `size` bytes.  The model's address space starts reserving
    /// at the lowest block boundary above null.
    pub fn new(size: usize) -> (r: Mmap)
        requires
            BLOCK_SIZE + size + 2 * BLOCK_SIZE <= usize::MAX,
        ensures
            r.wf(),
            r.start == BLOCK_SIZE,
            r.stop == r.start + size,
    {
        Mmap { start: BLOCK_SIZE, stop: BLOCK_SIZE + size }
    }

    /// The first `BLOCK_SIZE`-aligned address strictly inside the
    /// reservation.
    pub fn aligned(&self) -> (r: usize)
        requires
            self.wf(),
        ensures
            r == self.start + BLOCK_SIZE,
            r % BLOCK_SIZE == 0,
    {
        let offset = BLOCK_SIZE - self.start % BLOCK_SIZE;
        proof {
            assert((self.start + offset) as int % (BLOCK_SIZE as int) == 0) by (nonlinear_arith)
                requires
                    self.start as int % (BLOCK_SIZE as int) == 0,
                    offset == BLOCK_SIZE - self.start as int % (BLOCK_SIZE as int),
                    BLOCK_SIZE == 32768,
                    self.start >= 0,
            ;
        }
        self.start + offset
    }

    /// First address of the reservation.
    pub fn start(&self) -> (r: usize)
        ensures
            r == self.start,
    {
        self.start
    }

    /// First address past the reservation.
    pub fn end(&self) -> (r: usize)
        ensures
            r == self.stop,
    {
        self.stop
    }

    /// Tells the host that the block at `page` will not be needed soon; a
    /// hint only, with no effect on the model's memory.
    pub fn dontneed(&self, page: usize, size: usize) {
    }

    /// Tells the host that the block at `page` is about to be used; a hint
    /// only, with no effect on the model's memory.
    pub fn commit(&self, page: usize, size: usize) {
    }
}

/// Hands out aligned blocks from one reserved region.
pub struct BlockAllocator {
    /// The free list: indices of returned blocks.
    pub free_blocks: Vec<usize>,
    /// Every block ever built, dense by block number; block `i` starts at
    /// `aligned + i * BLOCK_SIZE`.
    pub blocks: Vec<ImmixBlock>,
    /// First address past the usable region.
    pub data_bound: usize,
    /// The bump cursor: first address not yet carved into a block.
    pub data: usize,
    /// The reservation backing the region.
    pub mmap: Mmap,
}

impl BlockAllocator {
    /// First usable, aligned address of the region.
    pub open spec fn spec_aligned(&self) -> int {
        self.mmap.start + BLOCK_SIZE
    }

    /// The block number that owns address `a`, for `a` within the region.
    pub open spec fn block_index_of(&self, a: int) -> int {
        (a - self.spec_aligned()) / (BLOCK_SIZE as int)
    }

    /// Structural well-formedness: the cursor is block-aligned and in
    /// bounds, every built block sits at its number's address, and the free
    /// list holds numbers of built blocks.
    pub open spec fn wf(&self) -> bool {
        &&& self.mmap.wf()
        &&& self.spec_aligned() <= self.data <= self.data_bound
        &&& self.data_bound == if self.mmap.stop >= self.spec_aligned() {
            self.mmap.stop as int
        } else {
            self.spec_aligned()
        }
        &&& (self.data - self.spec_aligned()) % (BLOCK_SIZE as int) == 0
        &&& self.blocks@.len() == (self.data - self.spec_aligned()) / (BLOCK_SIZE as int)
        &&& forall|i: int|
            0 <= i < self.blocks@.len() ==> (#[trigger] self.blocks@[i]).wf()
                && self.blocks@[i].spec_begin() == self.spec_aligned() + i * BLOCK_SIZE
        &&& forall|k: int|
            0 <= k < self.free_blocks@.len() ==> 0 <= #[trigger] self.free_blocks@[k]
                < self.blocks@.len()
    }

    /// Creates an allocator over a fresh reservation of `size` bytes.
    pub fn new(size: usize) -> (r: BlockAllocator)
        requires
            3 * BLOCK_SIZE + size <= usize::MAX,
        ensures
            r.wf(),
            r.blocks@.len() == 0,
            r.free_blocks@.len() == 0,
            r.data == r.spec_aligned(),
            r.data_bound <= r.spec_aligned() + size,
            r.mmap.start == BLOCK_SIZE,
            r.mmap.stop == BLOCK_SIZE + size,
    {
        let map = Mmap::new(size);
        let aligned = map.aligned();
        let stop = map.end();
        let bound = if stop >= aligned {
            stop
        } else {
            aligned
        };
        BlockAllocator {
            free_blocks: Vec::new(),
            blocks: Vec::new(),
            data: aligned,
            data_bound: bound,
            mmap: map,
        }
    }

    /// The number of whole blocks the region can ever hold.
    pub fn total_blocks(&self) -> (r: usize)
        requires
            self.wf(),
        ensures
            r == (self.data_bound - self.spec_aligned()) / (BLOCK_SIZE as int),
    {
        (self.data_bound - (self.mmap.start() + BLOCK_SIZE)) / BLOCK_SIZE
    }

    /// An estimate of how many more blocks can be handed out: whole blocks
    /// left above the cursor plus the free list.
    pub fn available_blocks(&self) -> (r: usize)
        requires
            self.wf(),
            self.free_blocks@.len() + (self.data_bound - self.data) / (BLOCK_SIZE as int)
                <= usize::MAX,
        ensures
            r == (self.data_bound - self.data) / (BLOCK_SIZE as int) + self.free_blocks@.len(),
    {
        let nblocks = (self.data_bound - self.data) / BLOCK_SIZE;
        nblocks + self.free_blocks.len()
    }

    /// Whether `object` lies within the reserved region.
    pub fn is_in_space(&self, object: Address) -> (r: bool)
        requires
            self.wf(),
        ensures
            r == (self.mmap.start < object@ <= self.data_bound),
    {
        self.mmap.start() < object.to_usize() && object.to_usize() <= self.data_bound
    }

    /// Carves the next block out of the region; `None` once the region is
    /// exhausted.
    fn build_block(&mut self) -> (r: Option<usize>)
        requires
            old(self).wf(),
        ensures
            final (self).wf(),
            final (self).free_blocks@ == old(self).free_blocks@,
            final (self).data_bound == old(self).data_bound,
            final (self).mmap == old(self).mmap,
            r is None ==> *final (self) == *old(self) && old(self).data + BLOCK_SIZE > old(
                self,
            ).data_bound,
            r matches Some(i) ==> {
                &&& i == old(self).blocks@.len()
                &&& final (self).blocks@.len() == old(self).blocks@.len() + 1
                &&& final (self).blocks@.subrange(0, i as int) == old(self).blocks@
                &&& final (self).blocks@[i as int].spec_begin() == old(self).data
                &&& !final (self).blocks@[i as int].allocated
                &&& (forall|l: int|
                    0 <= l < crate::constants::NUM_LINES_PER_BLOCK
                        ==> !(final (self).blocks@[i as int].line_map@[l]))
                &&& (forall|g: int|
                    0 <= g < crate::block::BLOCK_GRANULES ==> final (self).blocks@[
                        i as int
                    ].spec_header(g) == 0)
                &&& final (self).data == old(self).data + BLOCK_SIZE
            },
    {
        let next = self.data;
        if next > self.data_bound - BLOCK_SIZE {
            return None;
        }
        let i = self.blocks.len();
        proof {
            assert(next % BLOCK_SIZE == 0) by (nonlinear_arith)
                requires
                    (next - (self.mmap.start + BLOCK_SIZE)) % (BLOCK_SIZE as int) == 0,
                    self.mmap.start % BLOCK_SIZE == 0,
                    BLOCK_SIZE == 32768,
                    next >= 0,
                    self.mmap.start >= 0,
            ;
        }
        self.mmap.commit(next, BLOCK_SIZE);
        let block = ImmixBlock::new(next);
        self.blocks.push(block);
        self.data = next + BLOCK_SIZE;
        proof {
            assert(self.blocks@.subrange(0, i as int) =~= old(self).blocks@);
            let ghost al = self.spec_aligned();
            let ghost d0 = old(self).data as int;
            let ghost d1 = self.data as int;
            let ghost nb = old(self).blocks@.len() as int;
            let ghost bg = self.blocks@[i as int].spec_begin();
            assert((d1 - al) % (BLOCK_SIZE as int) == 0 && (d1 - al) / (BLOCK_SIZE as int) == nb
                + 1 && bg == al + i * BLOCK_SIZE) by (nonlinear_arith)
                requires
                    d1 == d0 + BLOCK_SIZE,
                    (d0 - al) % (BLOCK_SIZE as int) == 0,
                    nb == (d0 - al) / (BLOCK_SIZE as int),
                    al <= d0,
                    i == nb,
                    bg == d0,
                    BLOCK_SIZE == 32768,
            ;
        }
        Some(i)
    }

    /// Hands out a block: first from the free list, then by carving a new
    /// one.  `None` means the heap is exhausted.
    pub fn get_block(&mut self) -> (r: Option<usize>)
        requires
            old(self).wf(),
        ensures
            final (self).wf(),
            final (self).data_bound == old(self).data_bound,
            final (self).mmap == old(self).mmap,
            r is None ==> *final (self) == *old(self) && old(self).free_blocks@.len() == 0 && old(
                self,
            ).data + BLOCK_SIZE > old(self).data_bound,
            r matches Some(i) ==> {
                &&& 0 <= i < final (self).blocks@.len()
                &&& old(self).blocks@.len() <= final (self).blocks@.len()
                &&& (forall|k: int|
                    0 <= k < old(self).blocks@.len() && k != i ==> final (self).blocks@[k] == old(
                        self,
                    ).blocks@[k])
                &&& (old(self).free_blocks@.len() == 0 ==> {
                    &&& i == old(self).blocks@.len()
                    &&& final (self).data == old(self).data + BLOCK_SIZE
                    &&& final (self).free_blocks@ == old(self).free_blocks@
                    &&& (forall|l: int|
                        0 <= l < crate::constants::NUM_LINES_PER_BLOCK
                            ==> !(final (self).blocks@[i as int].line_map@[l]))
                })
                &&& (old(self).free_blocks@.len() > 0 ==> {
                    &&& final (self).free_blocks@.len() == old(self).free_blocks@.len() - 1
                    &&& final (self).data == old(self).data
                    &&& final (self).blocks@ == old(self).blocks@
                })
            },
    {
        if self.free_blocks.len() == 0 {
            return self.build_block();
        }
        let i = self.free_blocks.pop().unwrap();
        self.mmap.commit(self.blocks[i].begin(), BLOCK_SIZE);
        Some(i)
    }

    /// Returns one block to the free list and decommits it.
    pub fn return_block(&mut self, i: usize)
        requires
            old(self).wf(),
            i < old(self).blocks@.len(),
        ensures
            final (self).wf(),
            final (self).blocks@ == old(self).blocks@,
            final (self).data == old(self).data,
            final (self).data_bound == old(self).data_bound,
            final (self).mmap == old(self).mmap,
            final (self).free_blocks@ == old(self).free_blocks@.push(i),
    {
        self.mmap.dontneed(self.blocks[i].begin(), BLOCK_SIZE);
        self.free_blocks.push(i);
    }
}

} // verus!
