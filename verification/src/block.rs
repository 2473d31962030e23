//! Blocks and lines.
//!
//! A block is a 32 KiB region aligned to its size and split into lines; a
//! line-map bit says whether any live object touches the line.  A hole is a
//! maximal run of unmarked lines; the allocator bump-allocates into holes.
//! The model keeps the block's memory as one word per 8 bytes and one
//! header slot per 16-byte granule, so that header updates and payload
//! writes cannot alias.

use vstd::prelude::*;

use crate::constants::BLOCK_SIZE;
use crate::constants::LINE_SIZE;
use crate::constants::NUM_LINES_PER_BLOCK;
use crate::util::Address;

verus! {

/// Number of 16-byte granules in a block; a header may sit at each.
pub const BLOCK_GRANULES: usize = BLOCK_SIZE / 16;

/// Number of 8-byte words in a block.
pub const BLOCK_WORDS: usize = BLOCK_SIZE / 8;

/// One bit per line of a block.
pub struct LineMap {
    bits: Vec<bool>,
}

impl View for LineMap {
    type V = Seq<bool>;

    closed spec fn view(&self) -> Seq<bool> {
        self.bits@
    }
}

impl LineMap {
    /// A line map covers exactly the lines of one block.
    pub open spec fn wf(&self) -> bool {
        self@.len() == NUM_LINES_PER_BLOCK
    }

    /// Creates a map with every line unmarked.
    pub fn new() -> (r: LineMap)
        ensures
            r.wf(),
            forall|l: int| 0 <= l < NUM_LINES_PER_BLOCK ==> !r@[l],
    {
        let mut bits: Vec<bool> = Vec::new();
        let mut i: usize = 0;
        while i < NUM_LINES_PER_BLOCK
            invariant
                i == bits@.len(),
                i <= NUM_LINES_PER_BLOCK,
                forall|l: int| 0 <= l < i ==> !bits@[l],
            decreases NUM_LINES_PER_BLOCK - i,
        {
            bits.push(false);
            i = i + 1;
        }
        LineMap { bits }
    }

    /// Whether line `line` is marked.
    pub fn test(&self, line: usize) -> (r: bool)
        requires
            self.wf(),
            line < NUM_LINES_PER_BLOCK,
        ensures
            r == self@[line as int],
    {
        self.bits[line]
    }

    /// Marks line `line`.
    pub fn set(&mut self, line: usize)
        requires
            old(self).wf(),
            line < NUM_LINES_PER_BLOCK,
        ensures
            final (self).wf(),
            final (self)@ == old(self)@.update(line as int, true),
    {
        self.bits.set(line, true);
    }

    /// Unmarks line `line`.
    pub fn clear(&mut self, line: usize)
        requires
            old(self).wf(),
            line < NUM_LINES_PER_BLOCK,
        ensures
            final (self).wf(),
            final (self)@ == old(self)@.update(line as int, false),
    {
        self.bits.set(line, false);
    }

    /// Unmarks every line.
    pub fn clear_all(&mut self)
        requires
            old(self).wf(),
        ensures
            final (self).wf(),
            forall|l: int| 0 <= l < NUM_LINES_PER_BLOCK ==> !final (self)@[l],
    {
        let mut i: usize = 0;
        while i < NUM_LINES_PER_BLOCK
            invariant
                self.wf(),
                i <= NUM_LINES_PER_BLOCK,
                forall|l: int| 0 <= l < i ==> !self@[l],
            decreases NUM_LINES_PER_BLOCK - i,
        {
            self.bits.set(i, false);
            i = i + 1;
        }
    }

    /// Whether no line is marked.
    pub fn is_empty(&self) -> (r: bool)
        requires
            self.wf(),
        ensures
            r == (forall|l: int| 0 <= l < NUM_LINES_PER_BLOCK ==> !self@[l]),
    {
        let mut i: usize = 0;
        while i < NUM_LINES_PER_BLOCK
            invariant
                self.wf(),
                i <= NUM_LINES_PER_BLOCK,
                forall|l: int| 0 <= l < i ==> !self@[l],
            decreases NUM_LINES_PER_BLOCK - i,
        {
            if self.bits[i] {
                return false;
            }
            i = i + 1;
        }
        true
    }
}

/// The line that the byte at address `a` lies in, within its block.
pub open spec fn spec_line_of(a: int) -> int {
    (a % (BLOCK_SIZE as int)) / (LINE_SIZE as int)
}

/// What a successful hole scan guarantees: the returned byte range starts
/// 16-byte aligned past the reserved metadata lines and past the previous
/// high offset, ends on the last byte of a line, and covers unmarked lines
/// only.
pub open spec fn scan_result_ok(s: Seq<bool>, lho: int, low: int, high: int) -> bool {
    &&& low % 16 == 0
    &&& 2 * LINE_SIZE <= low
    &&& lho < low
    &&& low <= high
    &&& high < BLOCK_SIZE
    &&& (high + 1) % (LINE_SIZE as int) == 0
    &&& forall|l: int|
        low / (LINE_SIZE as int) <= l <= high / (LINE_SIZE as int) ==> 0 <= l < s.len() && !s[l]
}

/// Number of holes (maximal runs of unmarked lines) in `s` from position
/// `i` on, given whether position `i - 1` lay in a hole.
pub open spec fn holes_from(s: Seq<bool>, i: int, in_hole: bool) -> int
    decreases s.len() - i,
{
    if i < 0 || i >= s.len() {
        0
    } else if !s[i] && !in_hole {
        1 + holes_from(s, i + 1, true)
    } else {
        holes_from(s, i + 1, !s[i])
    }
}

/// Number of holes in a whole line map.
pub open spec fn spec_holes(s: Seq<bool>) -> int {
    holes_from(s, 0, false)
}

/// There are never more holes left than lines left.
pub proof fn lemma_holes_bounded(s: Seq<bool>, i: int, in_hole: bool)
    requires
        i <= s.len(),
    ensures
        holes_from(s, i, in_hole) <= s.len() - i,
        holes_from(s, i, in_hole) >= 0,
    decreases s.len() - i,
{
    if 0 <= i < s.len() {
        lemma_holes_bounded(s, i + 1, true);
        lemma_holes_bounded(s, i + 1, !s[i]);
    }
}

/// A suffix has no hole exactly when it has no unmarked line, provided the
/// scan is not already inside a hole.
pub proof fn lemma_holes_zero(s: Seq<bool>, i: int)
    requires
        0 <= i <= s.len(),
    ensures
        (holes_from(s, i, false) == 0) == (forall|l: int| i <= l < s.len() ==> s[l]),
    decreases s.len() - i,
{
    if i < s.len() {
        lemma_holes_zero(s, i + 1);
        if !s[i] {
            lemma_holes_bounded(s, i + 1, true);
        }
    }
}

/// Number of marked lines in `s` before position `i`.
pub open spec fn marked_upto(s: Seq<bool>, i: int) -> int
    decreases i,
{
    if i <= 0 {
        0
    } else {
        marked_upto(s, i - 1) + if s[i - 1] {
            1int
        } else {
            0int
        }
    }
}

/// Counts of marked lines are bounded by the positions scanned.
pub proof fn lemma_marked_upto_bounded(s: Seq<bool>, i: int)
    requires
        0 <= i <= s.len(),
    ensures
        0 <= marked_upto(s, i) <= i,
    decreases i,
{
    if i > 0 {
        lemma_marked_upto_bounded(s, i - 1);
    }
}

/// A block: a `BLOCK_SIZE` region aligned to its size, with a line map, an
/// allocation flag, a cached hole count and an evacuation-candidate flag.
pub struct ImmixBlock {
    /// Base address; `BLOCK_SIZE`-aligned and nonzero.
    pub begin: usize,
    /// Bitmap for marking lines.
    pub line_map: LineMap,
    /// Whether this block is handed to an allocator.
    pub allocated: bool,
    /// How many holes this block had after the latest count.
    pub hole_count: u32,
    /// Whether the current cycle will evacuate this block's objects.
    pub evacuation_candidate: bool,
    /// The header slot of each 16-byte granule; zero where no object
    /// starts.
    pub headers: Vec<u64>,
    /// The block's memory, one entry per 8-byte word.
    pub words: Vec<u64>,
}

impl ImmixBlock {
    /// The block's base address as a spec-level number.
    pub open spec fn spec_begin(&self) -> int {
        self.begin as int
    }

    /// Header slot of granule `g`.
    pub open spec fn spec_header(&self, g: int) -> u64 {
        self.headers@[g]
    }

    /// Memory word `w`.
    pub open spec fn spec_word(&self, w: int) -> u64 {
        self.words@[w]
    }

    /// Structural well-formedness of a block.
    pub open spec fn wf(&self) -> bool {
        &&& self.begin % BLOCK_SIZE == 0
        &&& self.begin > 0
        &&& self.begin + BLOCK_SIZE + BLOCK_SIZE <= usize::MAX
        &&& self.line_map.wf()
        &&& self.headers@.len() == BLOCK_GRANULES
        &&& self.words@.len() == BLOCK_WORDS
    }

    /// Creates a fresh, fully unmarked block at base address `at`.
    pub fn new(at: usize) -> (r: Self)
        requires
            at % BLOCK_SIZE == 0,
            at > 0,
            at + BLOCK_SIZE + BLOCK_SIZE <= usize::MAX,
        ensures
            r.wf(),
            r.spec_begin() == at,
            !r.allocated,
            r.hole_count == 0,
            !r.evacuation_candidate,
            forall|l: int| 0 <= l < NUM_LINES_PER_BLOCK ==> !r.line_map@[l],
            forall|g: int| 0 <= g < BLOCK_GRANULES ==> r.spec_header(g) == 0,
    {
        let mut headers: Vec<u64> = Vec::new();
        let mut i: usize = 0;
        while i < BLOCK_GRANULES
            invariant
                i == headers@.len(),
                i <= BLOCK_GRANULES,
                forall|g: int| 0 <= g < i ==> headers@[g] == 0,
            decreases BLOCK_GRANULES - i,
        {
            headers.push(0);
            i = i + 1;
        }
        let mut words: Vec<u64> = Vec::new();
        let mut j: usize = 0;
        while j < BLOCK_WORDS
            invariant
                j == words@.len(),
                j <= BLOCK_WORDS,
            decreases BLOCK_WORDS - j,
        {
            words.push(0);
            j = j + 1;
        }
        ImmixBlock {
            begin: at,
            line_map: LineMap::new(),
            allocated: false,
            hole_count: 0,
            evacuation_candidate: false,
            headers,
            words,
        }
    }

    /// Whether `p` lies in this allocated block: strictly above the base
    /// address, where the block's own metadata sits, up to and including
    /// the end.
    pub fn is_in_block(&self, p: Address) -> (r: bool)
        requires
            self.wf(),
        ensures
            r == (self.allocated && self.spec_begin() < p@ <= self.spec_begin() + BLOCK_SIZE),
    {
        if self.allocated {
            let b = self.begin;
            b < p.to_usize() && p.to_usize() <= b + BLOCK_SIZE
        } else {
            false
        }
    }

    /// The block's base address.
    pub fn begin(&self) -> (r: usize)
        ensures
            r == self.spec_begin(),
    {
        self.begin
    }

    /// The address `offset` bytes into the block.
    pub fn offset(&self, offset: usize) -> (r: Address)
        requires
            self.wf(),
            offset <= BLOCK_SIZE,
        ensures
            r@ == self.spec_begin() + offset,
    {
        Address::from(self.begin + offset)
    }

    /// The line that the byte at `object` lies in.
    pub fn object_to_line_num(object: Address) -> (r: usize)
        ensures
            r == ((object@ as int) % (BLOCK_SIZE as int)) / (LINE_SIZE as int),
            r < NUM_LINES_PER_BLOCK,
    {
        (object.to_usize() % BLOCK_SIZE) / LINE_SIZE
    }

    /// Whether line `line` is marked.
    pub fn line_is_marked(&self, line: usize) -> (r: bool)
        requires
            self.wf(),
            line < NUM_LINES_PER_BLOCK,
        ensures
            r == self.line_map@[line as int],
    {
        self.line_map.test(line)
    }

    /// Whether no line of the block is marked.
    pub fn is_empty(&self) -> (r: bool)
        requires
            self.wf(),
        ensures
            r == (forall|l: int| 0 <= l < NUM_LINES_PER_BLOCK ==> !self.line_map@[l]),
    {
        self.line_map.is_empty()
    }

    /// Clears the line map and all flags, and forgets every header: the
    /// block returns to the free pool as if fresh.
    pub fn reset(&mut self)
        requires
            old(self).wf(),
        ensures
            final (self).wf(),
            final (self).spec_begin() == old(self).spec_begin(),
            forall|l: int| 0 <= l < NUM_LINES_PER_BLOCK ==> !final (self).line_map@[l],
            !final (self).allocated,
            final (self).hole_count == 0,
            !final (self).evacuation_candidate,
            forall|g: int| 0 <= g < BLOCK_GRANULES ==> final (self).spec_header(g) == 0,
            final (self).words@ == old(self).words@,
    {
        self.line_map.clear_all();
        self.allocated = false;
        self.hole_count = 0;
        self.evacuation_candidate = false;
        let mut g: usize = 0;
        while g < BLOCK_GRANULES
            invariant
                old(self).wf(),
                self.wf(),
                g <= BLOCK_GRANULES,
                forall|k: int| 0 <= k < g ==> self.headers@[k] == 0,
                self.begin == old(self).begin,
                forall|l: int| 0 <= l < NUM_LINES_PER_BLOCK ==> !self.line_map@[l],
                !self.allocated,
                self.hole_count == 0,
                !self.evacuation_candidate,
                self.words@ == old(self).words@,
            decreases BLOCK_GRANULES - g,
        {
            self.headers.set(g, 0);
            g = g + 1;
        }
    }

    /// Recounts the holes of the block and caches the result.  A hole count
    /// never exceeds the number of lines per block.
    pub fn count_holes(&mut self) -> (r: usize)
        requires
            old(self).wf(),
        ensures
            final (self).wf(),
            r == spec_holes(final (self).line_map@),
            final (self).hole_count == r,
            r <= NUM_LINES_PER_BLOCK,
            final (self).line_map@ == old(self).line_map@,
            final (self).spec_begin() == old(self).spec_begin(),
            final (self).allocated == old(self).allocated,
            final (self).evacuation_candidate == old(self).evacuation_candidate,
            final (self).headers@ == old(self).headers@,
            final (self).words@ == old(self).words@,
    {
        let ghost s = self.line_map@;
        let mut holes: usize = 0;
        let mut in_hole = false;
        let mut i: usize = 0;
        proof {
            lemma_holes_bounded(s, 0, false);
        }
        while i < NUM_LINES_PER_BLOCK
            invariant
                self.wf(),
                s == self.line_map@,
                i <= NUM_LINES_PER_BLOCK,
                holes <= i,
                spec_holes(s) == holes + holes_from(s, i as int, in_hole),
            decreases NUM_LINES_PER_BLOCK - i,
        {
            let marked = self.line_map.test(i);
            if !in_hole && !marked {
                holes = holes + 1;
                in_hole = true;
            } else {
                in_hole = !marked;
            }
            i = i + 1;
        }
        proof {
            lemma_holes_bounded(s, 0, false);
        }
        self.hole_count = holes as u32;
        holes
    }

    /// Reads the header slot of granule `g`.
    pub fn header(&self, g: usize) -> (r: u64)
        requires
            self.wf(),
            g < BLOCK_GRANULES,
        ensures
            r == self.spec_header(g as int),
    {
        self.headers[g]
    }

    /// Writes the header slot of granule `g`.
    pub fn set_header(&mut self, g: usize, w: u64)
        requires
            old(self).wf(),
            g < BLOCK_GRANULES,
        ensures
            final (self).wf(),
            final (self).headers@ == old(self).headers@.update(g as int, w),
            final (self).begin == old(self).begin,
            final (self).line_map == old(self).line_map,
            final (self).allocated == old(self).allocated,
            final (self).hole_count == old(self).hole_count,
            final (self).evacuation_candidate == old(self).evacuation_candidate,
            final (self).words@ == old(self).words@,
    {
        self.headers.set(g, w);
    }

    /// Reads memory word `w`.
    pub fn word(&self, w: usize) -> (r: u64)
        requires
            self.wf(),
            w < BLOCK_WORDS,
        ensures
            r == self.spec_word(w as int),
    {
        self.words[w]
    }

    /// Writes memory word `w`.
    pub fn set_word(&mut self, w: usize, val: u64)
        requires
            old(self).wf(),
            w < BLOCK_WORDS,
        ensures
            final (self).wf(),
            final (self).words@ == old(self).words@.update(w as int, val),
            final (self).begin == old(self).begin,
            final (self).line_map == old(self).line_map,
            final (self).allocated == old(self).allocated,
            final (self).hole_count == old(self).hole_count,
            final (self).evacuation_candidate == old(self).evacuation_candidate,
            final (self).headers@ == old(self).headers@,
    {
        self.words.set(w, val);
    }

    /// Forgets any stale header in the granules `[lo, hi)`: the bytes of a
    /// freshly acquired hole are garbage, not objects.
    pub fn clear_headers_range(&mut self, lo: usize, hi: usize)
        requires
            old(self).wf(),
            lo <= hi <= BLOCK_GRANULES,
        ensures
            final (self).wf(),
            forall|g: int|
                0 <= g < BLOCK_GRANULES ==> final (self).spec_header(g) == if lo <= g < hi {
                    0u64
                } else {
                    old(self).spec_header(g)
                },
            final (self).begin == old(self).begin,
            final (self).line_map == old(self).line_map,
            final (self).allocated == old(self).allocated,
            final (self).hole_count == old(self).hole_count,
            final (self).evacuation_candidate == old(self).evacuation_candidate,
            final (self).words@ == old(self).words@,
    {
        let mut g: usize = lo;
        let ghost orig = self.headers@;
        while g < hi
            invariant
                self.wf(),
                lo <= g <= hi <= BLOCK_GRANULES,
                orig == old(self).headers@,
                forall|k: int| lo <= k < g ==> self.headers@[k] == 0,
                forall|k: int|
                    0 <= k < BLOCK_GRANULES && !(lo <= k < g) ==> self.headers@[k] == orig[k],
                self.begin == old(self).begin,
                self.line_map == old(self).line_map,
                self.allocated == old(self).allocated,
                self.hole_count == old(self).hole_count,
                self.evacuation_candidate == old(self).evacuation_candidate,
                self.words@ == old(self).words@,
            decreases hi - g,
        {
            let ghost prev = self.headers@;
            self.headers.set(g, 0);
            proof {
                assert(self.headers@ == prev.update(g as int, 0u64));
            }
            g = g + 1;
        }
    }

    /// Sets or clears the line bits covering an object of `size` bytes at
    /// `object`, plus one conservative trailing line for a tail that may
    /// straddle into the following line.
    fn modify_line(&mut self, object: Address, size: usize, mark: bool)
        requires
            old(self).wf(),
            size <= BLOCK_SIZE,
        ensures
            final (self).wf(),
            forall|l: int|
                0 <= l < NUM_LINES_PER_BLOCK ==> final (self).line_map@[l] == if spec_line_of(
                    object@ as int,
                ) <= l <= spec_line_of(object@ as int) + size / LINE_SIZE {
                    mark
                } else {
                    old(self).line_map@[l]
                },
            final (self).begin == old(self).begin,
            final (self).allocated == old(self).allocated,
            final (self).hole_count == old(self).hole_count,
            final (self).evacuation_candidate == old(self).evacuation_candidate,
            final (self).headers@ == old(self).headers@,
            final (self).words@ == old(self).words@,
    {
        let line_num = Self::object_to_line_num(object);
        let last = line_num + size / LINE_SIZE;
        let mut line: usize = line_num;
        while line <= last && line < NUM_LINES_PER_BLOCK
            invariant
                self.wf(),
                line_num == spec_line_of(object@ as int),
                last == line_num + size / LINE_SIZE,
                line_num <= line <= last + 1,
                forall|l: int|
                    0 <= l < NUM_LINES_PER_BLOCK ==> self.line_map@[l] == if line_num <= l < line {
                        mark
                    } else {
                        old(self).line_map@[l]
                    },
                self.begin == old(self).begin,
                self.allocated == old(self).allocated,
                self.hole_count == old(self).hole_count,
                self.evacuation_candidate == old(self).evacuation_candidate,
                self.headers@ == old(self).headers@,
                self.words@ == old(self).words@,
            decreases last + 1 - line,
        {
            if mark {
                self.line_map.set(line);
            } else {
                self.line_map.clear(line);
            }
            line = line + 1;
        }
    }

    /// Marks the lines covered by a live object of `size` bytes at
    /// `object`.
    pub fn line_object_mark(&mut self, object: Address, size: usize)
        requires
            old(self).wf(),
            size <= BLOCK_SIZE,
        ensures
            final (self).wf(),
            forall|l: int|
                0 <= l < NUM_LINES_PER_BLOCK ==> final (self).line_map@[l] == (old(
                    self,
                ).line_map@[l] || spec_line_of(object@ as int) <= l <= spec_line_of(
                    object@ as int,
                ) + size / LINE_SIZE),
            final (self).begin == old(self).begin,
            final (self).allocated == old(self).allocated,
            final (self).hole_count == old(self).hole_count,
            final (self).evacuation_candidate == old(self).evacuation_candidate,
            final (self).headers@ == old(self).headers@,
            final (self).words@ == old(self).words@,
    {
        self.modify_line(object, size, true)
    }

    /// Unmarks the lines covered by an object of `size` bytes at `object`.
    pub fn line_object_unmark(&mut self, object: Address, size: usize)
        requires
            old(self).wf(),
            size <= BLOCK_SIZE,
        ensures
            final (self).wf(),
            forall|l: int|
                0 <= l < NUM_LINES_PER_BLOCK ==> final (self).line_map@[l] == (old(
                    self,
                ).line_map@[l] && !(spec_line_of(object@ as int) <= l <= spec_line_of(
                    object@ as int,
                ) + size / LINE_SIZE)),
            final (self).begin == old(self).begin,
            final (self).allocated == old(self).allocated,
            final (self).hole_count == old(self).hole_count,
            final (self).evacuation_candidate == old(self).evacuation_candidate,
            final (self).headers@ == old(self).headers@,
            final (self).words@ == old(self).words@,
    {
        self.modify_line(object, size, false)
    }

    /// Scans the block for the next hole, starting after byte offset
    /// `last_high_offset`, and returns the lowest and highest usable byte
    /// offsets of the hole, or `None` if no usable hole remains.
    ///
    /// The first unmarked line found is skipped: it may carry the
    /// unrecorded tail of an object from the previous line, so the smallest
    /// holes stay reserved for that conservative overhang.
    pub fn scan_block(&self, last_high_offset: u16) -> (r: Option<(u16, u16)>)
        requires
            self.wf(),
            last_high_offset < BLOCK_SIZE,
        ensures
            r matches Some(pair) ==> scan_result_ok(
                self.line_map@,
                last_high_offset as int,
                pair.0 as int,
                pair.1 as int,
            ),
            // The hole is maximal on the right: it ends at the block's end
            // or against a marked line.
            r matches Some(pair) ==> (pair.1 as int + 1 == BLOCK_SIZE || self.line_map@[(
            pair.1 as int + 1) / (LINE_SIZE as int)]),
            (last_high_offset as int / LINE_SIZE as int + 4 <= NUM_LINES_PER_BLOCK && (forall|
                l: int,
            |
                last_high_offset as int / LINE_SIZE as int + 1 <= l < NUM_LINES_PER_BLOCK
                    ==> !self.line_map@[l])) ==> r == Some(
                (
                    ((last_high_offset as int / LINE_SIZE as int + 2) * LINE_SIZE) as u16,
                    (BLOCK_SIZE - 1) as u16,
                ),
            ),
            // A refused scan means no usable hole is left: past the previous
            // high offset, no two consecutive lines clear of marks start
            // before the block's last two lines.
            r is None ==> forall|l: int|
                last_high_offset as int / LINE_SIZE as int + 1 <= l < NUM_LINES_PER_BLOCK - 2
                    ==> #[trigger] self.line_map@[l] || self.line_map@[l + 1],
        decreases BLOCK_SIZE - last_high_offset,
    {
        let ghost s = self.line_map@;
        let last_high_index = last_high_offset as usize / LINE_SIZE;
        assert(last_high_index < NUM_LINES_PER_BLOCK) by (nonlinear_arith)
            requires
                last_high_index == last_high_offset as int / LINE_SIZE as int,
                0 <= last_high_offset < BLOCK_SIZE,
                LINE_SIZE == 256,
                BLOCK_SIZE == NUM_LINES_PER_BLOCK * LINE_SIZE,
        ;

        // Advance past marked lines to the first unmarked line.
        let mut i = last_high_index + 1;
        while i < NUM_LINES_PER_BLOCK && self.line_map.test(i)
            invariant
                self.wf(),
                s == self.line_map@,
                last_high_index + 1 <= i <= NUM_LINES_PER_BLOCK,
                forall|j: int| last_high_index + 1 <= j < i ==> s[j],
            decreases NUM_LINES_PER_BLOCK - i,
        {
            i = i + 1;
        }
        let mut low_index = NUM_LINES_PER_BLOCK - 1;
        if i < NUM_LINES_PER_BLOCK {
            // Skip the first unmarked line: it may hold a conservative
            // object tail.
            low_index = i + 1;
        }

        // Collect the consecutive unmarked lines of the hole.
        let mut high_index = NUM_LINES_PER_BLOCK;
        let mut k = low_index;
        while k < NUM_LINES_PER_BLOCK && !self.line_map.test(k)
            invariant
                self.wf(),
                s == self.line_map@,
                low_index <= k <= NUM_LINES_PER_BLOCK,
                forall|j: int| low_index <= j < k ==> !s[j],
            decreases NUM_LINES_PER_BLOCK - k,
        {
            k = k + 1;
        }
        if k < NUM_LINES_PER_BLOCK {
            high_index = k;
        }

        proof {
            // The byte offset bounds that tie line indices to byte offsets.
            assert((last_high_index + 1) * LINE_SIZE <= last_high_offset + LINE_SIZE
                && last_high_offset < (last_high_index + 1) * LINE_SIZE) by (nonlinear_arith)
                requires
                    last_high_index == last_high_offset as int / LINE_SIZE as int,
                    0 <= last_high_offset,
                    LINE_SIZE == 256,
            ;
        }

        if low_index == high_index && high_index != NUM_LINES_PER_BLOCK - 1 {
            // A single-line hole: retry from the line after it.
            proof {
                // In this branch an unmarked line was found, so
                // `low_index == i + 1 >= last_high_index + 2`.
                if i >= NUM_LINES_PER_BLOCK {
                    // Then low_index == NUM - 1 == high_index, excluded by
                    // the branch condition.
                    assert(low_index == NUM_LINES_PER_BLOCK - 1);
                    assert(false);
                }
                // Under the all-unmarked-tail hypothesis this branch cannot
                // be taken, so the second postcondition is vacuous here.
                if last_high_index + 4 <= NUM_LINES_PER_BLOCK && (forall|l: int|
                    last_high_index + 1 <= l < NUM_LINES_PER_BLOCK ==> !s[l]) {
                    if i > last_high_index + 1 {
                        assert(s[last_high_index + 1]);
                        assert(!s[last_high_index + 1]);
                    }
                    assert(i == last_high_index + 1);
                    if k < NUM_LINES_PER_BLOCK {
                        assert(s[k as int]);
                        assert(false);
                    }
                    assert(high_index == NUM_LINES_PER_BLOCK);
                    assert(false);
                }
            }
            let rec = self.scan_block((high_index * LINE_SIZE - 1) as u16);
            proof {
                if rec is None {
                    assert(((high_index * LINE_SIZE - 1) as int) / (LINE_SIZE as int)
                        == high_index - 1) by (nonlinear_arith)
                        requires
                            LINE_SIZE == 256,
                            1 <= high_index <= NUM_LINES_PER_BLOCK,
                    ;
                    assert forall|l: int|
                        last_high_index + 1 <= l < NUM_LINES_PER_BLOCK - 2 implies #[trigger] s[l]
                        || s[l + 1] by {
                        if l < i {
                            assert(s[l]);
                        } else if l == i {
                            assert(high_index < NUM_LINES_PER_BLOCK);
                            assert(s[high_index as int]);
                        } else {
                            assert(s[l] || s[l + 1]);
                        }
                    }
                }
            }
            return rec;
        } else if low_index < NUM_LINES_PER_BLOCK - 1 {
            let low = crate::align_usize(low_index * LINE_SIZE, 16);
            proof {
                assert(low == low_index * LINE_SIZE && low % 16 == 0) by (nonlinear_arith)
                    requires
                        low == ((low_index * LINE_SIZE + 15) as int / 16) * 16,
                        LINE_SIZE == 256,
                        0 <= low_index,
                ;
                if i >= NUM_LINES_PER_BLOCK {
                    assert(low_index == NUM_LINES_PER_BLOCK - 1);
                    assert(false);
                }
                // low_index == i + 1 with i >= last_high_index + 1.
                assert(low_index >= last_high_index + 2);
                assert(low_index < high_index);
                let lowb = (low_index * LINE_SIZE) as int;
                let highb = (high_index * LINE_SIZE - 1) as int;
                assert(last_high_offset < lowb && 2 * LINE_SIZE <= lowb && lowb <= highb && highb
                    < BLOCK_SIZE && (highb + 1) % (LINE_SIZE as int) == 0 && lowb / (
                LINE_SIZE as int) == low_index && highb / (LINE_SIZE as int) == high_index - 1
                    && (highb + 1) / (LINE_SIZE as int) == high_index && (high_index
                    == NUM_LINES_PER_BLOCK ==> highb + 1 == BLOCK_SIZE)) by (nonlinear_arith)
                    requires
                        LINE_SIZE == 256,
                        BLOCK_SIZE == 32768,
                        NUM_LINES_PER_BLOCK == 128,
                        lowb == low_index * LINE_SIZE,
                        highb == high_index * LINE_SIZE - 1,
                        2 <= low_index,
                        last_high_index + 2 <= low_index,
                        low_index < high_index,
                        high_index <= NUM_LINES_PER_BLOCK,
                        last_high_offset < (last_high_index + 1) * LINE_SIZE,
                ;
                assert forall|l: int|
                    lowb / (LINE_SIZE as int) <= l <= highb / (LINE_SIZE as int) implies 0 <= l
                    < s.len() && !s[l] by {
                    assert(low_index <= l < high_index);
                }
                assert(scan_result_ok(s, last_high_offset as int, lowb, highb));
                // Under the all-unmarked-tail hypothesis the scan finds the
                // hole that starts two lines past the previous high offset
                // and runs to the end of the block.
                if last_high_index + 4 <= NUM_LINES_PER_BLOCK && (forall|l: int|
                    last_high_index + 1 <= l < NUM_LINES_PER_BLOCK ==> !s[l]) {
                    if i > last_high_index + 1 {
                        assert(s[last_high_index + 1]);
                        assert(!s[last_high_index + 1]);
                    }
                    assert(i == last_high_index + 1);
                    if k < NUM_LINES_PER_BLOCK {
                        assert(s[k as int]);
                        assert(false);
                    }
                    assert(low_index == last_high_index + 2);
                    assert(high_index == NUM_LINES_PER_BLOCK);
                    assert(highb == BLOCK_SIZE - 1) by (nonlinear_arith)
                        requires
                            highb == high_index * LINE_SIZE - 1,
                            high_index == NUM_LINES_PER_BLOCK,
                            LINE_SIZE == 256,
                            NUM_LINES_PER_BLOCK == 128,
                            BLOCK_SIZE == 32768,
                    ;
                }
            }
            return Some(((low) as u16, (high_index * LINE_SIZE - 1) as u16));
        }
        proof {
            assert forall|l: int|
                last_high_index + 1 <= l < NUM_LINES_PER_BLOCK - 2 implies #[trigger] s[l] || s[l
                + 1] by {
                if i < NUM_LINES_PER_BLOCK {
                    assert(low_index == i + 1);
                    assert(l < i);
                    assert(s[l]);
                } else {
                    assert(s[l]);
                }
            }
            // `None` is only returned when no unmarked line was found or the
            // hole sits at the very end; under the all-unmarked-tail
            // hypothesis neither happens.
            if last_high_index + 4 <= NUM_LINES_PER_BLOCK && (forall|l: int|
                last_high_index + 1 <= l < NUM_LINES_PER_BLOCK ==> !s[l]) {
                if i > last_high_index + 1 {
                    assert(s[last_high_index + 1]);
                    assert(!s[last_high_index + 1]);
                }
                assert(i == last_high_index + 1);
                if i >= NUM_LINES_PER_BLOCK {
                    assert(false);
                }
                if k < NUM_LINES_PER_BLOCK {
                    assert(s[k as int]);
                    assert(false);
                }
                assert(low_index == last_high_index + 2);
                assert(high_index == NUM_LINES_PER_BLOCK);
                assert(low_index < NUM_LINES_PER_BLOCK - 1);
                assert(false);
            }
        }
        None
    }

    /// Returns the cached hole count together with the number of marked
    /// lines.  `count_holes` must have run since the line map last changed.
    pub fn count_holes_and_marked_lines(&self) -> (r: (usize, usize))
        requires
            self.wf(),
        ensures
            r.0 == self.hole_count,
            r.1 == marked_upto(self.line_map@, NUM_LINES_PER_BLOCK as int),
            r.1 <= NUM_LINES_PER_BLOCK,
    {
        let ghost s = self.line_map@;
        let mut count: usize = 0;
        let mut i: usize = 0;
        while i < NUM_LINES_PER_BLOCK
            invariant
                self.wf(),
                s == self.line_map@,
                i <= NUM_LINES_PER_BLOCK,
                count == marked_upto(s, i as int),
                count <= i,
            decreases NUM_LINES_PER_BLOCK - i,
        {
            if self.line_map.test(i) {
                count = count + 1;
            }
            i = i + 1;
        }
        (self.hole_count as usize, count)
    }

    /// Returns the cached hole count together with the number of unmarked
    /// (available) lines.
    pub fn count_holes_and_available_lines(&self) -> (r: (usize, usize))
        requires
            self.wf(),
        ensures
            r.0 == self.hole_count,
            r.1 == NUM_LINES_PER_BLOCK - marked_upto(self.line_map@, NUM_LINES_PER_BLOCK as int),
            r.1 <= NUM_LINES_PER_BLOCK,
    {
        let ghost s = self.line_map@;
        proof {
            lemma_marked_upto_bounded(s, NUM_LINES_PER_BLOCK as int);
        }
        let mut count: usize = 0;
        let mut i: usize = 0;
        while i < NUM_LINES_PER_BLOCK
            invariant
                self.wf(),
                s == self.line_map@,
                i <= NUM_LINES_PER_BLOCK,
                count == i - marked_upto(s, i as int),
                count <= i,
            decreases NUM_LINES_PER_BLOCK - i,
        {
            if !self.line_map.test(i) {
                count = count + 1;
            }
            i = i + 1;
        }
        (self.hole_count as usize, count)
    }
}

} // verus!
