//! The tracer, the sweep and the evacuation policy.
//!
//! A collection clears the line maps and object-start bits of every retired
//! block, traces the heap from the roots (optionally relocating objects out
//! of evacuation candidates), sweeps the blocks into unavailable,
//! recyclable and free pools, and finally sweeps the large-object space.

use vstd::prelude::*;

use crate::allocation::ImmixSpace;
use crate::block::BLOCK_GRANULES;
use crate::block::BLOCK_WORDS;
use crate::block::spec_holes;
use crate::block::marked_upto;
use crate::block::lemma_holes_bounded;
use crate::block::lemma_holes_zero;
use crate::constants::BLOCK_SIZE;
use crate::constants::EVAC_HEADROOM;
use crate::constants::EVAC_TRIGGER_DIVISOR;
use crate::constants::LARGE_OBJECT;
use crate::constants::NUM_LINES_PER_BLOCK;
use crate::constants::USE_EVACUATION;
use crate::large_object_space::LargeObjectSpace;
use crate::large_object_space::survives_from;
use crate::object::GCRTTI;
use crate::util::Address;
use std::collections::VecDeque;

verus! {

/// The entries a hole-count histogram holds: how many lines were tallied
/// for each hole count.  Relies on the map collection of the `vec_map`
/// crate.
#[verifier::external_type_specification]
#[verifier::external_body]
#[verifier::reject_recursive_types(V)]
pub struct ExVecMap<V>(vec_map::VecMap<V>);

/// The contents of a hole-count histogram, as a map from hole count to
/// tallied lines.
pub uninterp spec fn vec_map_view(m: vec_map::VecMap<usize>) -> Map<int, usize>;

/// The histogram with nothing tallied.
pub open spec fn empty_hist() -> Map<int, usize> {
    Map::empty()
}

/// The histogram that tallying the first `k` gathered blocks yields: each
/// marked block adds its marked-line count under its hole count, the sum
/// saturating by keeping the earlier tally.
pub open spec fn hist_tally(space: &ImmixSpace, list: Seq<usize>, k: int) -> Map<int, usize>
    decreases k,
{
    if k <= 0 {
        empty_hist()
    } else {
        let m = hist_tally(space, list, k - 1);
        let lines = space.spec_block(list[k - 1] as int).line_map@;
        if lines_clear(lines) {
            m
        } else {
            let h = spec_holes(lines);
            let ml = marked_upto(lines, NUM_LINES_PER_BLOCK as int);
            let prev = if m.dom().contains(h) {
                m[h] as int
            } else {
                0
            };
            let sum = if prev + ml <= usize::MAX {
                (prev + ml) as usize
            } else {
                prev as usize
            };
            m.insert(h, sum)
        }
    }
}

/// Relies on `vec_map::VecMap::with_capacity`: creates an empty map.
#[verifier::external_body]
fn vec_map_with_capacity(capacity: usize) -> (m: vec_map::VecMap<usize>)
    ensures
        vec_map_view(m) == empty_hist(),
{
    vec_map::VecMap::with_capacity(capacity)
}

/// Relies on `vec_map::VecMap::insert`: maps `key` to `value`, replacing
/// any earlier value.
#[verifier::external_body]
fn vec_map_insert(m: &mut vec_map::VecMap<usize>, key: usize, value: usize)
    ensures
        vec_map_view(*final (m)) == vec_map_view(*old(m)).insert(key as int, value),
{
    m.insert(key, value);
}

/// Relies on `vec_map::VecMap::get`: returns the value mapped to `key`, if
/// any.
#[verifier::external_body]
fn vec_map_get(m: &vec_map::VecMap<usize>, key: usize) -> (r: Option<usize>)
    ensures
        r == if vec_map_view(*m).dom().contains(key as int) {
            Some(vec_map_view(*m)[key as int])
        } else {
            None::<usize>
        },
{
    m.get(key).copied()
}

/// Relies on `vec_map::VecMap::clear`: empties the map.
#[verifier::external_body]
fn vec_map_clear(m: &mut vec_map::VecMap<usize>)
    ensures
        vec_map_view(*final (m)) == empty_hist(),
{
    m.clear();
}

/// Whether `b` is one of the block numbers in `list`.
pub open spec fn appears_in(list: Seq<usize>, b: int) -> bool {
    exists|j: int| 0 <= j < list.len() && list[j] == b
}

/// Whether no line of `lines` is marked.
pub open spec fn lines_clear(lines: Seq<bool>) -> bool {
    forall|l: int| 0 <= l < NUM_LINES_PER_BLOCK ==> !lines[l]
}

/// Whether, between two space states, exactly the listed blocks with at
/// least `h` holes are flagged as evacuation candidates.
pub open spec fn candidates_selected_by(
    pre: &ImmixSpace,
    post: &ImmixSpace,
    list: Seq<usize>,
    h: int,
) -> bool {
    forall|k: int|
        0 <= k < list.len() ==> post.spec_block(#[trigger] list[k] as int).evacuation_candidate
            == (pre.spec_block(list[k] as int).hole_count >= h)
}

/// What one object in one of the two spaces resolves to.
enum HeapCell {
    /// An object header in an Immix block: block number and granule.
    Small(usize, usize),
    /// A large-object cell: its position in the large-object space.
    Large(usize),
}

/// Resolves an address to the object header it names, if any.
fn resolve_cell(space: &ImmixSpace, los: &LargeObjectSpace, addr: usize) -> (r: Option<HeapCell>)
    requires
        space.wf(),
        los.wf(),
    ensures
        r matches Some(c) ==> match c {
            HeapCell::Small(b, g) => (b as int) < space.block_allocator.blocks@.len() && (g as int)
                < BLOCK_GRANULES && addr % 16 == 0 && !crate::large_object_space::spec_is_precise(
                addr as int,
            ) && resolve_small(space, addr as int) == Some((b as int, g as int)),
            HeapCell::Large(i) => (i as int) < los.allocations@.len() && los.cell_at(
                i as int,
                addr as int,
            ) && crate::large_object_space::spec_is_precise(addr as int),
        },
        // A refused address names no object: no live cell when it carries
        // the large-object tag, and no built Immix granule otherwise.
        r is None ==> (crate::large_object_space::spec_is_precise(addr as int)
            ==> !los.spec_contains(addr as int)) && (
        !crate::large_object_space::spec_is_precise(addr as int) ==> resolve_small(
            space,
            addr as int,
        ) is None),
{
    let a = Address::from(addr);
    if crate::large_object_space::PreciseAllocation::is_precise(a) {
        match los.find_cell(a) {
            Some(i) => {
                return Some(HeapCell::Large(i));
            },
            None => {
                return None;
            },
        }
    }
    if addr % 16 != 0 {
        return None;
    }
    match space.block_index_for(a) {
        Some(b) => {
            let begin = space.block_allocator.blocks[b].begin();
            let g = (addr - begin) / 16;
            proof {
                assert(g < BLOCK_GRANULES && g == (addr as int - space.spec_block(
                    b as int,
                ).spec_begin()) / 16) by (nonlinear_arith)
                    requires
                        g == (addr - begin) as int / 16,
                        begin == space.spec_block(b as int).spec_begin(),
                        0 <= addr - begin < BLOCK_SIZE,
                        BLOCK_SIZE == 32768,
                        BLOCK_GRANULES == 2048,
                ;
                assert(space.spec_block_of(addr as int) == b as int);
            }
            Some(HeapCell::Small(b, g))
        },
        None => None,
    }
}

/// Decodes a header word to its type descriptor, when the word carries a
/// valid descriptor number.
fn rtti_of_header<'a>(rttis: &'a Vec<GCRTTI>, h: u64) -> (r: Option<&'a GCRTTI>)
    requires
        forall|i: int| 0 <= i < rttis@.len() ==> (#[trigger] rttis@[i]).wf(),
    ensures
        r matches Some(t) ==> t.wf(),
{
    let vt = crate::util::untagged(h);
    if vt < 8 || vt % 8 != 0 {
        return None;
    }
    if vt > usize::MAX as u64 {
        return None;
    }
    let idx = (vt / 8 - 1) as usize;
    if idx >= rttis.len() {
        return None;
    }
    Some(&rttis[idx])
}

/// The rounded heap footprint of an object with descriptor `rtti`.
fn object_footprint(rtti: &GCRTTI) -> (r: usize)
    requires
        rtti.wf(),
    ensures
        r == crate::object::spec_object_size(rtti.heap_size as int),
        r >= 16,
        r % 16 == 0,
{
    let hdr = crate::object::RawGc::new(8);
    hdr.object_size(rtti)
}

/// The tracing visitor: carries whether this cycle evacuates and the
/// polarity that marks the living.
pub struct Visitor {
    /// Whether evacuation candidates are relocated this cycle.
    pub defrag: bool,
    /// The polarity live headers carry after this cycle.
    pub next_live_mark: bool,
}

impl Visitor {
    /// Traces one reference slot value: follows a forwarding pointer,
    /// opportunistically evacuates an unmarked object in a candidate
    /// block, or queues the object for marking.  Returns the value the
    /// slot must hold afterwards.
    ///
    /// Tracing an already-forwarded object always returns the address the
    /// forwarding pointer names, so a second trace of an evacuated object
    /// returns the same new address.
    pub fn trace(
        &self,
        space: &mut ImmixSpace,
        los: &LargeObjectSpace,
        rttis: &Vec<GCRTTI>,
        queue: &mut VecDeque<usize>,
        child: usize,
    ) -> (r: usize)
        requires
            old(space).wf(),
            los.wf(),
            forall|i: int| 0 <= i < rttis@.len() ==> (#[trigger] rttis@[i]).wf(),
        ensures
            final (space).wf(),
            final (space).block_allocator.blocks@.len()
                == old(space).block_allocator.blocks@.len(),
            final (space).current_live_mark == old(space).current_live_mark,
            // A non-evacuating trace only reads the heap.
            !self.defrag ==> *final (space) == *old(space),
            // Tracing never loses queued work: the queue only grows at the
            // back.
            final (queue)@.len() >= old(queue)@.len(),
            forall|j: int| 0 <= j < old(queue)@.len() ==> #[trigger] final (queue)@[j] == old(
                queue,
            )@[j],
            // A forwarded child resolves to its forwarding target, and the
            // heap is left unchanged: tracing it again yields the same
            // address.
            ({
                let c = resolve_small(old(space), child as int);
                c matches Some((b, g)) ==> ((crate::util::spec_bit_is_set(
                    old(space).spec_block(b).spec_header(g),
                    1,
                ) && crate::util::spec_untagged(old(space).spec_block(b).spec_header(g))
                    <= usize::MAX) ==> {
                    &&& r == crate::util::spec_untagged(old(space).spec_block(b).spec_header(g))
                    &&& *final (space) == *old(space)
                    &&& final (queue)@ == old(queue)@
                })
            }),
    {
        let a = Address::from(child);
        if crate::large_object_space::PreciseAllocation::is_precise(a) {
            match los.find_cell(a) {
                Some(i) => {
                    let h = los.header_of(i);
                    if crate::util::bit_is_set(h, 0) != self.next_live_mark {
                        // Not yet bearing the new polarity: queue it.
                        queue.push_back(child);
                    }
                    return child;
                },
                None => {
                    return child;
                },
            }
        }
        if child % 16 != 0 {
            return child;
        }
        let b = match space.block_index_for(a) {
            Some(b) => b,
            None => {
                return child;
            },
        };
        let begin = space.block_allocator.blocks[b].begin();
        let g = (child - begin) / 16;
        proof {
            assert(g < BLOCK_GRANULES && g == (child - begin) as int / 16) by (nonlinear_arith)
                requires
                    g == (child - begin) as int / 16,
                    0 <= child - begin < BLOCK_SIZE,
                    BLOCK_SIZE == 32768,
                    BLOCK_GRANULES == 2048,
            ;
        }
        proof {
            assert(space.spec_block_of(child as int) == b as int);
            assert((child as int - space.spec_block(b as int).spec_begin()) / 16 == g as int);
            assert(resolve_small(space, child as int) == Some((b as int, g as int)));
        }
        let h = space.block_allocator.blocks[b].header(g);
        if h == 0 {
            proof {
                assert(!crate::util::spec_bit_is_set(0u64, 1)) by (bit_vector);
            }
            return child;
        }
        if crate::util::bit_is_set(h, 1) {
            // Forwarded: the slot must name the relocated copy.
            let target = crate::util::untagged(h);
            if target <= usize::MAX as u64 {
                return target as usize;
            }
            return child;
        }
        if crate::util::bit_is_set(h, 0) == self.next_live_mark {
            // Already marked live this cycle.
            return child;
        }
        if self.defrag {
            let size = match rtti_of_header(rttis, h) {
                Some(rtti) => object_footprint(rtti),
                None => 16,
            };
            if 16 <= size && size < LARGE_OBJECT {
                match space.maybe_evacuate(a, size) {
                    Some(d) => {
                        let nd = d.to_usize();
                        queue.push_back(nd);
                        return nd;
                    },
                    None => {},
                }
            }
        }
        queue.push_back(child);
        child
    }
}

/// The Immix-block header that `addr` resolves to, as a spec-level lookup.
pub open spec fn resolve_small(space: &ImmixSpace, addr: int) -> Option<(int, int)> {
    if addr % 16 == 0 && space.spec_in_built_region(addr) {
        let b = space.spec_block_of(addr);
        let g = (addr - space.spec_block(b).spec_begin()) / 16;
        Some((b, g))
    } else {
        None::<(int, int)>
    }
}

/// Whether some entry of the worklist holds the address `a`.
pub open spec fn in_queue(q: Seq<usize>, a: int) -> bool {
    exists|j: int| 0 <= j < q.len() && q[j] as int == a
}

/// Whether the object the address `a` names bears the new polarity: a
/// large cell's header carries it, and an Immix header either carries it,
/// was never installed, or forwards elsewhere.
pub open spec fn root_marked(
    space: &ImmixSpace,
    los: &LargeObjectSpace,
    a: int,
    next: bool,
) -> bool {
    &&& (crate::large_object_space::spec_is_precise(a) ==> forall|c: int|
        #[trigger] los.cell_at(c, a) ==> crate::util::spec_bit_is_set(
            los.allocations@[c].header,
            0,
        ) == next)
    &&& (!crate::large_object_space::spec_is_precise(a) ==> (resolve_small(space, a) matches Some(
        (b, g),
    ) ==> {
        let h = space.spec_block(b).spec_header(g);
        h == 0 || crate::util::spec_bit_is_set(h, 1) || crate::util::spec_bit_is_set(h, 0) == next
    }))
}

/// Whether every root of `roots` is already marked or still awaits the
/// tracer in the worklist.
pub open spec fn roots_settled(
    space: &ImmixSpace,
    los: &LargeObjectSpace,
    roots: Seq<usize>,
    q: Seq<usize>,
    next: bool,
) -> bool {
    forall|k: int|
        0 <= k < roots.len() ==> root_marked(space, los, #[trigger] roots[k] as int, next)
            || in_queue(q, roots[k] as int)
}

/// How marking moves the heap: the layout both spaces expose is fixed, and
/// a header either keeps its word or takes the new polarity.
pub open spec fn marks_monotone(
    s0: &ImmixSpace,
    l0: &LargeObjectSpace,
    s1: &ImmixSpace,
    l1: &LargeObjectSpace,
    next: bool,
) -> bool {
    &&& s1.block_allocator.mmap == s0.block_allocator.mmap
    &&& s1.block_allocator.blocks@.len() == s0.block_allocator.blocks@.len()
    &&& forall|b: int|
        0 <= b < s0.block_allocator.blocks@.len() ==> (#[trigger] s1.spec_block(b)).begin
            == s0.spec_block(b).begin
    &&& forall|b: int, g: int|
        0 <= b < s0.block_allocator.blocks@.len() && 0 <= g < BLOCK_GRANULES ==> (
        #[trigger] s1.spec_block(b).spec_header(g)) == s0.spec_block(b).spec_header(g)
            || crate::util::spec_bit_is_set(s1.spec_block(b).spec_header(g), 0) == next
    &&& l1.allocations@.len() == l0.allocations@.len()
    &&& forall|c: int|
        0 <= c < l0.allocations@.len() ==> (#[trigger] l1.allocations@[c]).at
            == l0.allocations@[c].at
    &&& forall|c: int|
        0 <= c < l0.allocations@.len() ==> (#[trigger] l1.allocations@[c]).header
            == l0.allocations@[c].header || crate::util::spec_bit_is_set(
            l1.allocations@[c].header,
            0,
        ) == next
}

/// A marked address stays marked under a monotone step: the layout is
/// unchanged and its header either kept its word or took the polarity.
pub proof fn lemma_root_marked_mono(
    s0: &ImmixSpace,
    l0: &LargeObjectSpace,
    s1: &ImmixSpace,
    l1: &LargeObjectSpace,
    a: int,
    next: bool,
)
    requires
        s0.wf(),
        root_marked(s0, l0, a, next),
        marks_monotone(s0, l0, s1, l1, next),
    ensures
        root_marked(s1, l1, a, next),
{
    if crate::large_object_space::spec_is_precise(a) {
        assert forall|c: int| #[trigger] l1.cell_at(c, a) implies crate::util::spec_bit_is_set(
            l1.allocations@[c].header,
            0,
        ) == next by {
            assert(l1.allocations@[c].at == l0.allocations@[c].at);
            assert(l0.cell_at(c, a));
        }
    } else {
        if a % 16 == 0 && s1.spec_in_built_region(a) {
            assert(s1.spec_in_built_region(a) == s0.spec_in_built_region(a));
            let b = s1.spec_block_of(a);
            assert(b == s0.spec_block_of(a));
            let al = s0.spec_aligned();
            let len = s0.block_allocator.blocks@.len() as int;
            assert(0 <= b < len) by (nonlinear_arith)
                requires
                    b == (a - al) / (BLOCK_SIZE as int),
                    al <= a < al + len * (BLOCK_SIZE as int),
                    len >= 0,
                    BLOCK_SIZE == 32768,
            ;
            assert(s1.spec_block(b).begin == s0.spec_block(b).begin);
            let g = (a - s1.spec_block(b).spec_begin()) / 16;
            assert(resolve_small(s1, a) == Some((b, g)));
            assert(resolve_small(s0, a) == Some((b, g)));
            assert(s0.spec_block(b).spec_begin() == al + b * BLOCK_SIZE);
            assert(0 <= g < BLOCK_GRANULES) by (nonlinear_arith)
                requires
                    b == (a - al) / (BLOCK_SIZE as int),
                    al <= a,
                    g == (a - (al + b * (BLOCK_SIZE as int))) / 16,
                    BLOCK_SIZE == 32768,
                    BLOCK_GRANULES == 2048,
            ;
            assert(s1.spec_block(b).spec_header(g) == s0.spec_block(b).spec_header(g)
                || crate::util::spec_bit_is_set(s1.spec_block(b).spec_header(g), 0) == next);
        }
    }
}

/// A monotone step composes with a further step that rewrites no header:
/// the large-object space and every Immix header stay as they were.
pub proof fn lemma_mono_space_headers_kept(
    s0: &ImmixSpace,
    l0: &LargeObjectSpace,
    s1: &ImmixSpace,
    s2: &ImmixSpace,
    l1: &LargeObjectSpace,
    next: bool,
)
    requires
        marks_monotone(s0, l0, s1, l1, next),
        s1.wf(),
        s2.wf(),
        s2.block_allocator.mmap == s1.block_allocator.mmap,
        s2.block_allocator.blocks@.len() == s1.block_allocator.blocks@.len(),
        forall|b: int, g: int|
            0 <= b < s1.block_allocator.blocks@.len() && 0 <= g < BLOCK_GRANULES ==> (
            #[trigger] s2.spec_block(b).spec_header(g)) == s1.spec_block(b).spec_header(g),
    ensures
        marks_monotone(s0, l0, s2, l1, next),
{
    assert forall|b: int|
        0 <= b < s0.block_allocator.blocks@.len() implies (#[trigger] s2.spec_block(b)).begin
        == s0.spec_block(b).begin by {
        assert(s2.spec_block(b).spec_begin() == s2.block_allocator.spec_aligned() + b
            * BLOCK_SIZE);
        assert(s1.spec_block(b).spec_begin() == s1.block_allocator.spec_aligned() + b
            * BLOCK_SIZE);
        assert(s1.spec_block(b).begin == s0.spec_block(b).begin);
    }
    assert forall|b: int, g: int|
        0 <= b < s0.block_allocator.blocks@.len() && 0 <= g < BLOCK_GRANULES implies (
    #[trigger] s2.spec_block(b).spec_header(g)) == s0.spec_block(b).spec_header(g)
        || crate::util::spec_bit_is_set(s2.spec_block(b).spec_header(g), 0) == next by {
        assert(s2.spec_block(b).spec_header(g) == s1.spec_block(b).spec_header(g));
        assert(s1.spec_block(b).spec_header(g) == s0.spec_block(b).spec_header(g)
            || crate::util::spec_bit_is_set(s1.spec_block(b).spec_header(g), 0) == next);
    }
}

/// A marked address stays marked over the sweep: Immix headers are kept or
/// cleared, and surviving large cells keep their address and header.
pub proof fn lemma_root_marked_sweep(
    s0: &ImmixSpace,
    l0: &LargeObjectSpace,
    s1: &ImmixSpace,
    l1: &LargeObjectSpace,
    a: int,
    next: bool,
)
    requires
        s0.wf(),
        s1.wf(),
        root_marked(s0, l0, a, next),
        s1.block_allocator.mmap == s0.block_allocator.mmap,
        s1.block_allocator.blocks@.len() == s0.block_allocator.blocks@.len(),
        forall|bb: int, gg: int|
            0 <= bb < s0.block_allocator.blocks@.len() && 0 <= gg < BLOCK_GRANULES ==> (
            #[trigger] s1.spec_block(bb).spec_header(gg)) == s0.spec_block(bb).spec_header(gg)
                || s1.spec_block(bb).spec_header(gg) == 0,
        forall|k: int|
            0 <= k < l1.allocations@.len() ==> #[trigger] survives_from(
                l1.allocations@,
                l0.allocations@,
                k,
            ),
    ensures
        root_marked(s1, l1, a, next),
{
    if crate::large_object_space::spec_is_precise(a) {
        assert forall|c: int| #[trigger] l1.cell_at(c, a) implies crate::util::spec_bit_is_set(
            l1.allocations@[c].header,
            0,
        ) == next by {
            assert(survives_from(l1.allocations@, l0.allocations@, c));
            let i = choose|i: int|
                0 <= i < l0.allocations@.len() && l0.allocations@[i].is_marked
                    && l1.allocations@[c].at == l0.allocations@[i].at && l1.allocations@[c].cell_size
                    == l0.allocations@[i].cell_size && l1.allocations@[c].header
                    == l0.allocations@[i].header && l1.allocations@[c].words
                    == l0.allocations@[i].words;
            assert(l0.cell_at(i, a));
        }
    } else {
        if a % 16 == 0 && s1.spec_in_built_region(a) {
            assert(s1.spec_in_built_region(a) == s0.spec_in_built_region(a));
            let b = s1.spec_block_of(a);
            assert(b == s0.spec_block_of(a));
            let al = s0.spec_aligned();
            let len = s0.block_allocator.blocks@.len() as int;
            assert(0 <= b < len) by (nonlinear_arith)
                requires
                    b == (a - al) / (BLOCK_SIZE as int),
                    al <= a < al + len * (BLOCK_SIZE as int),
                    len >= 0,
                    BLOCK_SIZE == 32768,
            ;
            assert(s1.spec_block(b).spec_begin() == s1.block_allocator.spec_aligned() + b
                * BLOCK_SIZE);
            assert(s0.spec_block(b).spec_begin() == al + b * BLOCK_SIZE);
            let g = (a - s1.spec_block(b).spec_begin()) / 16;
            assert(resolve_small(s1, a) == Some((b, g)));
            assert(resolve_small(s0, a) == Some((b, g)));
            assert(0 <= g < BLOCK_GRANULES) by (nonlinear_arith)
                requires
                    b == (a - al) / (BLOCK_SIZE as int),
                    al <= a,
                    g == (a - (al + b * (BLOCK_SIZE as int))) / 16,
                    BLOCK_SIZE == 32768,
                    BLOCK_GRANULES == 2048,
            ;
            assert(s1.spec_block(b).spec_header(g) == s0.spec_block(b).spec_header(g)
                || s1.spec_block(b).spec_header(g) == 0);
        }
    }
}

/// Two spaces whose gathered blocks carry the same line maps (or are both
/// clear) tally to the same histogram.
pub proof fn lemma_hist_tally_same_lines(s0: &ImmixSpace, s1: &ImmixSpace, list: Seq<usize>, k: int)
    requires
        forall|i: int|
            0 <= i < list.len() ==> (#[trigger] s1.spec_block(list[i] as int)).line_map@
                == s0.spec_block(list[i] as int).line_map@ || (lines_clear(
                s1.spec_block(list[i] as int).line_map@,
            ) && lines_clear(s0.spec_block(list[i] as int).line_map@)),
        0 <= k <= list.len(),
    ensures
        hist_tally(s1, list, k) == hist_tally(s0, list, k),
    decreases k,
{
    if k > 0 {
        lemma_hist_tally_same_lines(s0, s1, list, k - 1);
    }
}

/// A marked address stays marked when every header keeps its zero-ness,
/// mark bit and forwarded bit, and every large cell keeps its address and
/// mark bit: unpinning only clears pin bits.
pub proof fn lemma_root_marked_tags_kept(
    s0: &ImmixSpace,
    l0: &LargeObjectSpace,
    s1: &ImmixSpace,
    l1: &LargeObjectSpace,
    a: int,
    next: bool,
)
    requires
        s0.wf(),
        s1.wf(),
        root_marked(s0, l0, a, next),
        s1.block_allocator.mmap == s0.block_allocator.mmap,
        s1.block_allocator.blocks@.len() == s0.block_allocator.blocks@.len(),
        forall|bb: int, gg: int|
            0 <= bb < s0.block_allocator.blocks@.len() && 0 <= gg < BLOCK_GRANULES ==> {
                let h0 = s0.spec_block(bb).spec_header(gg);
                let h1 = #[trigger] s1.spec_block(bb).spec_header(gg);
                &&& (h0 == 0 ==> h1 == 0)
                &&& crate::util::spec_bit_is_set(h1, 0) == crate::util::spec_bit_is_set(h0, 0)
                &&& crate::util::spec_bit_is_set(h1, 1) == crate::util::spec_bit_is_set(h0, 1)
            },
        l1.allocations@.len() == l0.allocations@.len(),
        forall|c: int|
            0 <= c < l0.allocations@.len() ==> (#[trigger] l1.allocations@[c]).at
                == l0.allocations@[c].at && crate::util::spec_bit_is_set(
                l1.allocations@[c].header,
                0,
            ) == crate::util::spec_bit_is_set(l0.allocations@[c].header, 0),
    ensures
        root_marked(s1, l1, a, next),
{
    if crate::large_object_space::spec_is_precise(a) {
        assert forall|c: int| #[trigger] l1.cell_at(c, a) implies crate::util::spec_bit_is_set(
            l1.allocations@[c].header,
            0,
        ) == next by {
            assert(l1.allocations@[c].at == l0.allocations@[c].at);
            assert(l0.cell_at(c, a));
        }
    } else {
        if a % 16 == 0 && s1.spec_in_built_region(a) {
            assert(s1.spec_in_built_region(a) == s0.spec_in_built_region(a));
            let b = s1.spec_block_of(a);
            assert(b == s0.spec_block_of(a));
            let al = s0.spec_aligned();
            let len = s0.block_allocator.blocks@.len() as int;
            assert(0 <= b < len) by (nonlinear_arith)
                requires
                    b == (a - al) / (BLOCK_SIZE as int),
                    al <= a < al + len * (BLOCK_SIZE as int),
                    len >= 0,
                    BLOCK_SIZE == 32768,
            ;
            assert(s1.spec_block(b).spec_begin() == s1.block_allocator.spec_aligned() + b
                * BLOCK_SIZE);
            assert(s0.spec_block(b).spec_begin() == al + b * BLOCK_SIZE);
            let g = (a - s1.spec_block(b).spec_begin()) / 16;
            assert(resolve_small(s1, a) == Some((b, g)));
            assert(resolve_small(s0, a) == Some((b, g)));
            assert(0 <= g < BLOCK_GRANULES) by (nonlinear_arith)
                requires
                    b == (a - al) / (BLOCK_SIZE as int),
                    al <= a,
                    g == (a - (al + b * (BLOCK_SIZE as int))) / 16,
                    BLOCK_SIZE == 32768,
                    BLOCK_GRANULES == 2048,
            ;
            let h0 = s0.spec_block(b).spec_header(g);
            let h1 = s1.spec_block(b).spec_header(g);
            assert((h0 == 0 ==> h1 == 0) && crate::util::spec_bit_is_set(h1, 0)
                == crate::util::spec_bit_is_set(h0, 0) && crate::util::spec_bit_is_set(h1, 1)
                == crate::util::spec_bit_is_set(h0, 1));
        }
    }
}

/// The worklist marker.
pub struct ImmixCollector;

impl ImmixCollector {
    /// Traces the heap from the conservative roots and the precise root
    /// slots, marking every reached object with the new polarity, marking
    /// its lines and object-start bit, and relocating objects out of
    /// evacuation candidates when this cycle evacuates.  Precise root
    /// slots are rewritten when their object moves.  Returns the visited
    /// byte total and whether marking ran to completion.
    #[verifier::rlimit(100)]
    #[verifier::spinoff_prover]
    pub fn collect(
        collection_type: &crate::CollectionType,
        roots: &Vec<usize>,
        precise_roots: &mut Vec<usize>,
        immix_space: &mut ImmixSpace,
        los: &mut LargeObjectSpace,
        rttis: &Vec<GCRTTI>,
        next_live_mark: bool,
    ) -> (r: (usize, bool))
        requires
            old(immix_space).wf(),
            old(los).wf(),
            forall|i: int| 0 <= i < rttis@.len() ==> (#[trigger] rttis@[i]).wf(),
        ensures
            final (immix_space).wf(),
            final (los).wf(),
            final (immix_space).block_allocator.blocks@.len() == old(immix_space).block_allocator.blocks@.len(),
            final (los).allocations@.len() == old(los).allocations@.len(),
            final (precise_roots)@.len() == old(precise_roots)@.len(),
            final (immix_space).current_live_mark == old(immix_space).current_live_mark,
            final (los).current_live_mark == old(los).current_live_mark,
            final (los).alloc_cursor == old(los).alloc_cursor,
            // An abandoned marking reclaims nothing.
            !r.1 ==> r.0 == 0,
            // With nothing to trace, marking always completes.
            roots@.len() == 0 && old(precise_roots)@.len() == 0 ==> r.1,
            // A completed non-evacuating cycle leaves every root bearing
            // the new polarity.
            r.1 && *collection_type is ImmixCollection ==> forall|k: int|
                0 <= k < roots@.len() ==> root_marked(
                    final (immix_space),
                    final (los),
                    #[trigger] roots@[k] as int,
                    next_live_mark,
                ),
    {
        let defrag = match collection_type {
            crate::CollectionType::ImmixEvacCollection => true,
            crate::CollectionType::ImmixCollection => false,
        };
        let visitor = Visitor { defrag, next_live_mark };
        let mut queue: VecDeque<usize> = VecDeque::new();
        let mut i: usize = 0;
        while i < roots.len()
            invariant
                i <= roots@.len(),
                queue@.len() == i,
                forall|j: int| 0 <= j < i ==> #[trigger] queue@[j] == roots@[j],
            decreases roots@.len() - i,
        {
            queue.push_back(roots[i]);
            i = i + 1;
        }
        // Precise roots are traced first so that their slots can be
        // rewritten when the object moves.
        let mut i: usize = 0;
        while i < precise_roots.len()
            invariant
                immix_space.wf(),
                los.wf(),
                forall|k: int| 0 <= k < rttis@.len() ==> (#[trigger] rttis@[k]).wf(),
                i <= precise_roots@.len(),
                precise_roots@.len() == old(precise_roots)@.len(),
                immix_space.block_allocator.blocks@.len() == old(immix_space).block_allocator.blocks@.len(),
                immix_space.current_live_mark == old(immix_space).current_live_mark,
                los == old(los),
                queue@.len() >= roots@.len(),
                forall|j: int| 0 <= j < roots@.len() ==> #[trigger] queue@[j] == roots@[j],
                old(precise_roots)@.len() == 0 ==> queue@.len() == roots@.len(),
            decreases precise_roots@.len() - i,
        {
            let p = precise_roots[i];
            if p != 0 {
                let np = visitor.trace(immix_space, los, rttis, &mut queue, p);
                if np != p {
                    precise_roots.set(i, np);
                }
            }
            i = i + 1;
        }
        let mut visited: usize = 0;
        let mut complete = false;
        // Bookkeeping for the unreachable bail-out: which cells were
        // marked, so their marks can be taken back if marking could not
        // finish.
        let mut marked_log: Vec<HeapCell> = Vec::new();
        proof {
            if !visitor.defrag {
                assert forall|k: int| 0 <= k < roots@.len() implies in_queue(
                    queue@,
                    roots@[k] as int,
                ) by {
                    assert(queue@[k] == roots@[k]);
                }
            }
        }
        let ghost q_entry = queue@;
        let mut fuel: u64 = 0x4000_0000_0000_0000;
        while fuel > 0
            invariant_except_break
                !complete,
                q_entry.len() == 0 ==> fuel == 0x4000_0000_0000_0000,
            invariant
                q_entry.len() == 0 ==> queue@.len() == 0,
                immix_space.wf(),
                los.wf(),
                forall|k: int| 0 <= k < rttis@.len() ==> (#[trigger] rttis@[k]).wf(),
                immix_space.block_allocator.blocks@.len() == old(immix_space).block_allocator.blocks@.len(),
                los.allocations@.len() == old(los).allocations@.len(),
                immix_space.current_live_mark == old(immix_space).current_live_mark,
                los.current_live_mark == old(los).current_live_mark,
                los.alloc_cursor == old(los).alloc_cursor,
                forall|k: int|
                    0 <= k < marked_log@.len() ==> match #[trigger] marked_log@[k] {
                        HeapCell::Small(b, g) => (b as int)
                            < immix_space.block_allocator.blocks@.len() && (g as int)
                            < BLOCK_GRANULES,
                        HeapCell::Large(j) => (j as int) < los.allocations@.len(),
                    },
                !visitor.defrag ==> roots_settled(
                    immix_space,
                    los,
                    roots@,
                    queue@,
                    next_live_mark,
                ),
            ensures
                immix_space.wf(),
                los.wf(),
                immix_space.block_allocator.blocks@.len() == old(immix_space).block_allocator.blocks@.len(),
                los.allocations@.len() == old(los).allocations@.len(),
                immix_space.current_live_mark == old(immix_space).current_live_mark,
                los.current_live_mark == old(los).current_live_mark,
                los.alloc_cursor == old(los).alloc_cursor,
                forall|k: int|
                    0 <= k < marked_log@.len() ==> match #[trigger] marked_log@[k] {
                        HeapCell::Small(b, g) => (b as int)
                            < immix_space.block_allocator.blocks@.len() && (g as int)
                            < BLOCK_GRANULES,
                        HeapCell::Large(j) => (j as int) < los.allocations@.len(),
                    },
                complete ==> queue@.len() == 0,
                q_entry.len() == 0 ==> complete,
                !visitor.defrag ==> roots_settled(
                    immix_space,
                    los,
                    roots@,
                    queue@,
                    next_live_mark,
                ),
            decreases fuel,
        {
            fuel = fuel - 1;
            let ghost s_it = *immix_space;
            let ghost l_it = *los;
            let ghost q_head = queue@;
            let obj = match queue.pop_front() {
                None => {
                    complete = true;
                    break ;
                },
                Some(o) => o,
            };
            let ghost q_pop = queue@;
            proof {
                if !visitor.defrag {
                    assert forall|k: int| 0 <= k < roots@.len() implies root_marked(
                        &s_it,
                        &l_it,
                        #[trigger] roots@[k] as int,
                        next_live_mark,
                    ) || in_queue(q_pop, roots@[k] as int) || roots@[k] as int == obj as int by {
                        let rk = roots@[k] as int;
                        if !root_marked(&s_it, &l_it, rk, next_live_mark) {
                            assert(in_queue(q_head, rk));
                            let j = choose|j: int|
                                0 <= j < q_head.len() && q_head[j] as int == rk;
                            if j == 0 {
                                assert(q_head[0] as int == rk);
                            } else {
                                assert(q_pop[j - 1] == q_head[j]);
                            }
                        }
                    }
                }
            }
            match resolve_cell(immix_space, los, obj) {
                None => {
                    proof {
                        if !visitor.defrag {
                            assert(marks_monotone(&s_it, &l_it, immix_space, los, next_live_mark));
                            assert(root_marked(immix_space, los, obj as int, next_live_mark));
                        }
                    }
                },
                Some(HeapCell::Large(cell)) => {
                    let h = los.header_of(cell);
                    if crate::util::bit_is_set(h, 0) != next_live_mark {
                        // Mark the header and the allocation.
                        let mut tp = crate::util::TaggedPointer::new(h);
                        tp.set_bit_x(next_live_mark, 0);
                        los.set_header_of(cell, tp.raw);
                        los.mark_cell(cell);
                        proof {
                            crate::util::lemma_set_bit_x(h, next_live_mark, 0, 0);
                        }
                        let ghost l_mark = *los;
                        proof {
                            assert(crate::util::spec_bit_is_set(
                                l_mark.allocations@[cell as int].header,
                                0,
                            ) == next_live_mark);
                        }
                        marked_log.push(HeapCell::Large(cell));
                        match rtti_of_header(rttis, h) {
                            None => {},
                            Some(rtti) => {
                                let size = object_footprint(rtti);
                                visited = if visited <= usize::MAX - size {
                                    visited + size
                                } else {
                                    visited
                                };
                                // Trace the payload's reference slots.
                                let nwords = los.allocations[cell].words.len();
                                let nslots = rtti.ref_slots.len();
                                let mut j: usize = 0;
                                while j < nslots
                                    invariant
                                        immix_space.wf(),
                                        los.wf(),
                                        forall|k: int|
                                            0 <= k < rttis@.len() ==> (
                                            #[trigger] rttis@[k]).wf(),
                                        j <= nslots,
                                        (cell as int) < los.allocations@.len(),
                                        immix_space.block_allocator.blocks@.len() == old(immix_space).block_allocator.blocks@.len(),
                                        los.allocations@.len() == old(los).allocations@.len(),
                                        immix_space.current_live_mark == old(immix_space).current_live_mark,
                                        los.current_live_mark == old(los).current_live_mark,
                                        los.alloc_cursor == old(los).alloc_cursor,
                                        nslots == rtti.ref_slots@.len(),
                                        q_pop.len() <= queue@.len(),
                                        forall|jj: int|
                                            0 <= jj < q_pop.len() ==> #[trigger] queue@[jj]
                                                == q_pop[jj],
                                        !visitor.defrag ==> *immix_space == s_it,
                                        los.allocations@.len() == l_mark.allocations@.len(),
                                        forall|cc: int|
                                            0 <= cc < los.allocations@.len() ==> (
                                            #[trigger] los.allocations@[cc]).at
                                                == l_mark.allocations@[cc].at
                                                && los.allocations@[cc].header
                                                == l_mark.allocations@[cc].header,
                                    decreases nslots - j,
                                {
                                    let slot = rtti.ref_slots[j] as usize;
                                    let wl = los.allocations[cell].words.len();
                                    if slot < wl && slot + 1 < wl {
                                        let widx = slot + 1;
                                        let w = los.word_of(cell, widx);
                                        if w != 0 && w <= usize::MAX as u64 {
                                            let c = w as usize;
                                            let nc = visitor.trace(
                                                immix_space,
                                                los,
                                                rttis,
                                                &mut queue,
                                                c,
                                            );
                                            if nc != c {
                                                los.set_word_of(cell, widx, nc as u64);
                                            }
                                        }
                                    }
                                    j = j + 1;
                                }
                            },
                        }
                        proof {
                            if !visitor.defrag {
                                assert(marks_monotone(
                                    &s_it,
                                    &l_it,
                                    immix_space,
                                    los,
                                    next_live_mark,
                                )) by {
                                    assert(*immix_space == s_it);
                                    assert forall|cc: int|
                                        0 <= cc < l_it.allocations@.len() implies (
                                    #[trigger] los.allocations@[cc]).at
                                        == l_it.allocations@[cc].at by {
                                        if cc != cell as int {
                                            assert(l_mark.allocations@[cc]
                                                == l_it.allocations@[cc]);
                                        } else {
                                            assert(l_mark.allocations@[cc].at
                                                == l_it.allocations@[cc].at);
                                        }
                                    }
                                    assert forall|cc: int|
                                        0 <= cc < l_it.allocations@.len() implies (
                                    #[trigger] los.allocations@[cc]).header
                                        == l_it.allocations@[cc].header
                                        || crate::util::spec_bit_is_set(
                                        los.allocations@[cc].header,
                                        0,
                                    ) == next_live_mark by {
                                        if cc != cell as int {
                                            assert(l_mark.allocations@[cc]
                                                == l_it.allocations@[cc]);
                                        }
                                    }
                                }
                                assert(root_marked(immix_space, los, obj as int, next_live_mark))
                                    by {
                                    los.lemma_cell_at_unique(obj as int);
                                    assert(los.allocations@[cell as int].at
                                        == l_it.allocations@[cell as int].at);
                                    assert(los.cell_at(cell as int, obj as int));
                                    assert forall|cc: int|
                                        #[trigger] los.cell_at(cc, obj as int) implies crate::util::spec_bit_is_set(
                                        los.allocations@[cc].header,
                                        0,
                                    ) == next_live_mark by {
                                        assert(cc == cell as int);
                                    }
                                }
                            }
                        }
                    } else {
                        proof {
                            if !visitor.defrag {
                                assert(marks_monotone(
                                    &s_it,
                                    &l_it,
                                    immix_space,
                                    los,
                                    next_live_mark,
                                ));
                                assert(root_marked(immix_space, los, obj as int, next_live_mark))
                                    by {
                                    los.lemma_cell_at_unique(obj as int);
                                    assert forall|cc: int|
                                        #[trigger] los.cell_at(cc, obj as int) implies crate::util::spec_bit_is_set(
                                        los.allocations@[cc].header,
                                        0,
                                    ) == next_live_mark by {
                                        assert(cc == cell as int);
                                    }
                                }
                            }
                        }
                    }
                },
                Some(HeapCell::Small(b, g)) => {
                    let h = immix_space.block_allocator.blocks[b].header(g);
                    if h != 0 && !crate::util::bit_is_set(h, 1) && crate::util::bit_is_set(h, 0)
                        != next_live_mark {
                        // Mark the header, the object-start bit and the
                        // object's lines.
                        let mut tp = crate::util::TaggedPointer::new(h);
                        tp.set_bit_x(next_live_mark, 0);
                        immix_space.set_block_header(b, g, tp.raw);
                        marked_log.push(HeapCell::Small(b, g));
                        let a = Address::from(obj);
                        immix_space.set_gc_object(a);
                        let ghost s_mark = *immix_space;
                        proof {
                            crate::util::lemma_set_bit_x(h, next_live_mark, 0, 0);
                            assert(crate::util::spec_bit_is_set(
                                s_mark.spec_block(b as int).spec_header(g as int),
                                0,
                            ) == next_live_mark);
                            if !visitor.defrag {
                                assert(marks_monotone(&s_it, &l_it, immix_space, los, next_live_mark)) by {
                                    assert forall|bb: int|
                                        0 <= bb < s_it.block_allocator.blocks@.len() implies (
                                    #[trigger] s_mark.spec_block(bb)).begin == s_it.spec_block(
                                        bb,
                                    ).begin by {
                                        assert(s_mark.spec_block(bb).spec_begin()
                                            == s_mark.block_allocator.spec_aligned() + bb
                                            * BLOCK_SIZE);
                                        assert(s_it.spec_block(bb).spec_begin()
                                            == s_it.block_allocator.spec_aligned() + bb
                                            * BLOCK_SIZE);
                                    }
                                    assert forall|bb: int, gg: int|
                                        0 <= bb < s_it.block_allocator.blocks@.len() && 0 <= gg
                                            < BLOCK_GRANULES implies (
                                    #[trigger] s_mark.spec_block(bb).spec_header(gg))
                                        == s_it.spec_block(bb).spec_header(gg)
                                        || crate::util::spec_bit_is_set(
                                        s_mark.spec_block(bb).spec_header(gg),
                                        0,
                                    ) == next_live_mark by {
                                        if bb == b as int && gg == g as int {
                                            assert(s_mark.spec_block(bb).spec_header(gg)
                                                == tp.raw);
                                        } else if bb != b as int {
                                            assert(s_mark.block_allocator.blocks@[bb]
                                                == s_it.block_allocator.blocks@[bb]);
                                        } else {
                                            assert(s_mark.spec_block(bb).headers@
                                                == s_it.spec_block(bb).headers@.update(
                                                g as int,
                                                tp.raw,
                                            ));
                                        }
                                    }
                                }
                            }
                        }
                        match rtti_of_header(rttis, h) {
                            None => {},
                            Some(rtti) => {
                                let size = object_footprint(rtti);
                                if size <= BLOCK_SIZE {
                                    immix_space.mark_block_lines(b, a, size);
                                    proof {
                                        if !visitor.defrag {
                                            lemma_mono_space_headers_kept(
                                                &s_it,
                                                &l_it,
                                                &s_mark,
                                                immix_space,
                                                &l_it,
                                                next_live_mark,
                                            );
                                            assert(crate::util::spec_bit_is_set(
                                                immix_space.spec_block(b as int).spec_header(
                                                    g as int,
                                                ),
                                                0,
                                            ) == next_live_mark);
                                        }
                                    }
                                    visited = if visited <= usize::MAX - size {
                                        visited + size
                                    } else {
                                        visited
                                    };
                                    let begin = immix_space.block_allocator.blocks[b].begin();
                                    if obj >= begin && obj - begin < BLOCK_SIZE {
                                        let so = (obj - begin) / 8;
                                        let nslots = rtti.ref_slots.len();
                                        let mut j: usize = 0;
                                        while j < nslots
                                            invariant
                                                immix_space.wf(),
                                                los.wf(),
                                                forall|k: int|
                                                    0 <= k < rttis@.len() ==> (
                                                    #[trigger] rttis@[k]).wf(),
                                                j <= nslots,
                                                (b as int)
                                                    < immix_space.block_allocator.blocks@.len(),
                                                immix_space.block_allocator.blocks@.len() == old(immix_space).block_allocator.blocks@.len(),
                                                los.allocations@.len() == old(los).allocations@.len(),
                                                immix_space.current_live_mark == old(immix_space).current_live_mark,
                                                los.current_live_mark == old(los).current_live_mark,
                                                nslots == rtti.ref_slots@.len(),
                                                so < BLOCK_WORDS,
                                                q_pop.len() <= queue@.len(),
                                                forall|jj: int|
                                                    0 <= jj < q_pop.len()
                                                        ==> #[trigger] queue@[jj] == q_pop[jj],
                                                *los == l_it,
                                                !visitor.defrag ==> marks_monotone(
                                                    &s_it,
                                                    &l_it,
                                                    immix_space,
                                                    los,
                                                    next_live_mark,
                                                ),
                                                !visitor.defrag ==> crate::util::spec_bit_is_set(
                                                    immix_space.spec_block(b as int).spec_header(
                                                        g as int,
                                                    ),
                                                    0,
                                                ) == next_live_mark,
                                            decreases nslots - j,
                                        {
                                            let ghost s_lh = *immix_space;
                                            let slot = rtti.ref_slots[j] as usize;
                                            if slot < BLOCK_WORDS - 1 && so + 1 + slot
                                                < BLOCK_WORDS {
                                                let widx = so + 1 + slot;
                                                let w =
                                                    immix_space.block_allocator.blocks[b].word(
                                                    widx,
                                                );
                                                if w != 0 && w <= usize::MAX as u64 {
                                                    let c = w as usize;
                                                    let nc = visitor.trace(
                                                        immix_space,
                                                        los,
                                                        rttis,
                                                        &mut queue,
                                                        c,
                                                    );
                                                    if nc != c {
                                                        immix_space.set_block_word(
                                                            b,
                                                            widx,
                                                            nc as u64,
                                                        );
                                                    }
                                                }
                                            }
                                            proof {
                                                if !visitor.defrag {
                                                    lemma_mono_space_headers_kept(
                                                        &s_it,
                                                        &l_it,
                                                        &s_lh,
                                                        immix_space,
                                                        &l_it,
                                                        next_live_mark,
                                                    );
                                                    assert(immix_space.spec_block(
                                                        b as int,
                                                    ).spec_header(g as int) == s_lh.spec_block(
                                                        b as int,
                                                    ).spec_header(g as int));
                                                }
                                            }
                                            j = j + 1;
                                        }
                                    }
                                }
                            },
                        }
                        proof {
                            if !visitor.defrag {
                                assert(marks_monotone(&s_it, &l_it, immix_space, los, next_live_mark));
                                assert(root_marked(immix_space, los, obj as int, next_live_mark))
                                    by {
                                    assert(resolve_small(&s_it, obj as int) == Some(
                                        (b as int, g as int),
                                    ));
                                    assert(immix_space.spec_in_built_region(obj as int)
                                        == s_it.spec_in_built_region(obj as int));
                                    assert(immix_space.spec_block_of(obj as int)
                                        == s_it.spec_block_of(obj as int));
                                    assert(immix_space.spec_block(b as int).begin
                                        == s_it.spec_block(b as int).begin);
                                    assert(resolve_small(immix_space, obj as int) == Some(
                                        (b as int, g as int),
                                    ));
                                    assert(crate::util::spec_bit_is_set(
                                        immix_space.spec_block(b as int).spec_header(g as int),
                                        0,
                                    ) == next_live_mark);
                                }
                            }
                        }
                    } else {
                        proof {
                            if !visitor.defrag {
                                assert(marks_monotone(&s_it, &l_it, immix_space, los, next_live_mark));
                                assert(root_marked(immix_space, los, obj as int, next_live_mark))
                                    by {
                                    assert(resolve_small(immix_space, obj as int) == Some(
                                        (b as int, g as int),
                                    ));
                                    assert(immix_space.spec_block(b as int).spec_header(g as int)
                                        == h);
                                }
                            }
                        }
                    }
                },
            }
            proof {
                if !visitor.defrag {
                    assert forall|k: int| 0 <= k < roots@.len() implies root_marked(
                        immix_space,
                        los,
                        #[trigger] roots@[k] as int,
                        next_live_mark,
                    ) || in_queue(queue@, roots@[k] as int) by {
                        let rk = roots@[k] as int;
                        if root_marked(&s_it, &l_it, rk, next_live_mark) {
                            lemma_root_marked_mono(
                                &s_it,
                                &l_it,
                                immix_space,
                                los,
                                rk,
                                next_live_mark,
                            );
                        } else if in_queue(q_pop, rk) {
                            let j = choose|j: int| 0 <= j < q_pop.len() && q_pop[j] as int == rk;
                            assert(queue@[j] == q_pop[j]);
                        } else {
                            assert(rk == obj as int);
                        }
                    }
                }
            }
        }
        if !complete {
            // Marking could not finish: take every mark back so that the
            // next cycle starts from a consistent heap, and report that
            // nothing was reclaimed.
            let mut k: usize = 0;
            while k < marked_log.len()
                invariant
                    immix_space.wf(),
                    los.wf(),
                    k <= marked_log@.len(),
                    immix_space.block_allocator.blocks@.len() == old(immix_space).block_allocator.blocks@.len(),
                    los.allocations@.len() == old(los).allocations@.len(),
                    immix_space.current_live_mark == old(immix_space).current_live_mark,
                    los.current_live_mark == old(los).current_live_mark,
                    los.alloc_cursor == old(los).alloc_cursor,
                    forall|q: int|
                        0 <= q < marked_log@.len() ==> match #[trigger] marked_log@[q] {
                            HeapCell::Small(b, g) => (b as int)
                                < immix_space.block_allocator.blocks@.len() && (g as int)
                                < BLOCK_GRANULES,
                            HeapCell::Large(j) => (j as int) < los.allocations@.len(),
                        },
                decreases marked_log@.len() - k,
            {
                match marked_log[k] {
                    HeapCell::Small(b, g) => {
                        let h = immix_space.block_allocator.blocks[b].header(g);
                        let mut tp = crate::util::TaggedPointer::new(h);
                        tp.set_bit_x(!next_live_mark, 0);
                        immix_space.set_block_header(b, g, tp.raw);
                    },
                    HeapCell::Large(cell) => {
                        let h = los.header_of(cell);
                        let mut tp = crate::util::TaggedPointer::new(h);
                        tp.set_bit_x(!next_live_mark, 0);
                        los.set_header_of(cell, tp.raw);
                        los.unmark_cell(cell);
                    },
                }
                k = k + 1;
            }
            return (0, false);
        }
        proof {
            if !defrag {
                assert forall|k: int| 0 <= k < roots@.len() implies root_marked(
                    immix_space,
                    los,
                    #[trigger] roots@[k] as int,
                    next_live_mark,
                ) by {
                    assert(!in_queue(queue@, roots@[k] as int));
                }
            }
        }
        (visited, true)
    }
}

/// The collector: the blocks gathered for this cycle and the mark
/// histogram that feeds the next cycle's evacuation policy.
pub struct Collector {
    /// Every block retired to the collector, plus last cycle's unavailable
    /// blocks.
    pub all_blocks: Vec<usize>,
    /// How many lines were marked, by hole count, in the latest sweep.
    pub mark_histogram: vec_map::VecMap<usize>,
}

impl Collector {
    /// The collector's blocks all lie in the space.
    pub open spec fn wf_for(&self, space: &ImmixSpace) -> bool {
        forall|k: int|
            0 <= k < self.all_blocks@.len() ==> (#[trigger] self.all_blocks@[k] as int)
                < space.block_allocator.blocks@.len()
    }

    /// Creates a collector with no blocks and an empty histogram.
    pub fn new() -> (r: Collector)
        ensures
            r.all_blocks@.len() == 0,
            vec_map_view(r.mark_histogram) == empty_hist(),
    {
        Collector {
            all_blocks: Vec::new(),
            mark_histogram: vec_map_with_capacity(NUM_LINES_PER_BLOCK),
        }
    }

    /// Stores the given blocks into the buffer for use during the
    /// collection.
    pub fn extend_all_blocks(&mut self, blocks: &Vec<usize>)
        ensures
            final (self).all_blocks@ == old(self).all_blocks@ + blocks@,
            final (self).mark_histogram == old(self).mark_histogram,
    {
        let mut i: usize = 0;
        while i < blocks.len()
            invariant
                i <= blocks@.len(),
                self.all_blocks@ == old(self).all_blocks@ + blocks@.subrange(0, i as int),
                self.mark_histogram == old(self).mark_histogram,
            decreases blocks@.len() - i,
        {
            self.all_blocks.push(blocks[i]);
            proof {
                assert(self.all_blocks@ =~= old(self).all_blocks@ + blocks@.subrange(
                    0,
                    i + 1 as int,
                ));
            }
            i = i + 1;
        }
        proof {
            assert(self.all_blocks@ =~= old(self).all_blocks@ + blocks@);
        }
    }

    /// Computes how many holes a block must have to become an evacuation
    /// candidate: the smallest hole count whose cumulative available lines
    /// no longer cover the expected live-line demand recorded in the mark
    /// histogram.  Never exceeds the number of lines per block.
    fn establish_hole_threshhold(&self, evac_headroom: usize, space: &ImmixSpace) -> (r: usize)
        requires
            space.wf(),
            self.wf_for(space),
        ensures
            r <= NUM_LINES_PER_BLOCK,
    {
        let mut available_histogram = vec_map_with_capacity(NUM_LINES_PER_BLOCK);
        let mut k: usize = 0;
        while k < self.all_blocks.len()
            invariant
                space.wf(),
                self.wf_for(space),
                k <= self.all_blocks@.len(),
            decreases self.all_blocks@.len() - k,
        {
            let b = self.all_blocks[k];
            let (holes, free_lines) = space.block_allocator.blocks[b].count_holes_and_available_lines();
            let prev = match vec_map_get(&available_histogram, holes) {
                Some(v) => v,
                None => 0,
            };
            let sum = if prev <= usize::MAX - free_lines {
                prev + free_lines
            } else {
                prev
            };
            vec_map_insert(&mut available_histogram, holes, sum);
            k = k + 1;
        }
        let mut required_lines: usize = 0;
        proof {
            assert(evac_headroom < 100000 ==> evac_headroom * (NUM_LINES_PER_BLOCK - 1)
                < 100000 * 128) by (nonlinear_arith)
                requires
                    NUM_LINES_PER_BLOCK == 128,
                    evac_headroom >= 0,
            ;
        }
        let mut available_lines: usize = if evac_headroom < 100000 {
            evac_headroom * (NUM_LINES_PER_BLOCK - 1)
        } else {
            usize::MAX
        };
        let mut threshold: usize = 0;
        while threshold < NUM_LINES_PER_BLOCK
            invariant
                threshold <= NUM_LINES_PER_BLOCK,
            decreases NUM_LINES_PER_BLOCK - threshold,
        {
            let req = match vec_map_get(&self.mark_histogram, threshold) {
                Some(v) => v,
                None => 0,
            };
            required_lines = if required_lines <= usize::MAX - req {
                required_lines + req
            } else {
                usize::MAX
            };
            let avail = match vec_map_get(&available_histogram, threshold) {
                Some(v) => v,
                None => 0,
            };
            available_lines = if available_lines >= avail {
                available_lines - avail
            } else {
                0
            };
            if available_lines <= required_lines {
                return threshold;
            }
            threshold = threshold + 1;
        }
        NUM_LINES_PER_BLOCK
    }

    /// Decides the kind of the coming cycle.  In an emergency every block
    /// becomes an evacuation candidate; otherwise, when evacuation was
    /// asked for or fewer than a quarter of all blocks remain available,
    /// blocks with at least the hole threshold become candidates and the
    /// cycle evacuates.
    pub fn prepare_collection(
        &mut self,
        evacuation: bool,
        _cycle_collect: bool,
        available_blocks: usize,
        evac_headroom: usize,
        total_blocks: usize,
        emergency: bool,
        space: &mut ImmixSpace,
    ) -> (r: crate::CollectionType)
        requires
            old(space).wf(),
            old(self).wf_for(old(space)),
        ensures
            final (space).wf(),
            final (self).wf_for(final (space)),
            final (space).block_allocator.blocks@.len() == old(space).block_allocator.blocks@.len(),
            final (space).current_live_mark == old(space).current_live_mark,
            final (self).all_blocks@ == old(self).all_blocks@,
            final (self).mark_histogram == old(self).mark_histogram,
            emergency && USE_EVACUATION ==> r is ImmixEvacCollection,
            r is ImmixEvacCollection ==> USE_EVACUATION && (emergency || evacuation || (
            available_blocks + evac_headroom < total_blocks as int / EVAC_TRIGGER_DIVISOR as int)),
            // Only candidate flags change, and only on gathered blocks.
            forall|i: int|
                0 <= i < old(space).block_allocator.blocks@.len() ==> #[trigger] final (space).spec_block(i) == (crate::block::ImmixBlock {
                evacuation_candidate: final (space).spec_block(i).evacuation_candidate,
                ..old(space).spec_block(i)
            }),
            // In an emergency every gathered block is a candidate.
            emergency && USE_EVACUATION ==> forall|k: int|
                0 <= k < old(self).all_blocks@.len() ==> final (space).spec_block(
                    #[trigger] old(self).all_blocks@[k] as int,
                ).evacuation_candidate,
            // Otherwise an evacuating cycle selects exactly the gathered
            // blocks with at least the computed hole threshold.
            r is ImmixEvacCollection && !emergency ==> exists|h: int|
                1 <= h && #[trigger] candidates_selected_by(
                    old(space),
                    final (space),
                    old(self).all_blocks@,
                    h,
                ),
    {
        if emergency && USE_EVACUATION {
            let mut k: usize = 0;
            while k < self.all_blocks.len()
                invariant
                    space.wf(),
                    self.wf_for(space),
                    k <= self.all_blocks@.len(),
                    space.block_allocator.blocks@.len() == old(space).block_allocator.blocks@.len(),
                    space.current_live_mark == old(space).current_live_mark,
                    self.all_blocks@ == old(self).all_blocks@,
                    *self == *old(self),
                    forall|i: int|
                        0 <= i < old(space).block_allocator.blocks@.len()
                            ==> #[trigger] space.spec_block(i) == (crate::block::ImmixBlock {
                            evacuation_candidate: space.spec_block(i).evacuation_candidate,
                            ..old(space).spec_block(i)
                        }),
                    forall|q: int|
                        0 <= q < k ==> space.spec_block(
                            #[trigger] old(self).all_blocks@[q] as int,
                        ).evacuation_candidate,
                decreases self.all_blocks@.len() - k,
            {
                let b = self.all_blocks[k];
                let ghost pre = *space;
                space.set_evacuation_candidate(b, true);
                proof {
                    assert forall|i: int|
                        0 <= i < old(space).block_allocator.blocks@.len() implies
                        #[trigger] space.spec_block(i) == (crate::block::ImmixBlock {
                        evacuation_candidate: space.spec_block(i).evacuation_candidate,
                        ..old(space).spec_block(i)
                    }) by {
                        if i != b {
                            assert(space.spec_block(i) == pre.spec_block(i));
                        }
                    }
                    assert forall|q: int|
                        0 <= q < k + 1 implies space.spec_block(
                        #[trigger] old(self).all_blocks@[q] as int,
                    ).evacuation_candidate by {
                        if old(self).all_blocks@[q] != b {
                            assert(space.spec_block(old(self).all_blocks@[q] as int)
                                == pre.spec_block(old(self).all_blocks@[q] as int));
                        }
                    }
                }
                k = k + 1;
            }
            return crate::CollectionType::ImmixEvacCollection;
        }
        let mut perform_evac = evacuation;
        let evac_threshhold = total_blocks / EVAC_TRIGGER_DIVISOR;
        let available_evac_blocks = if available_blocks <= usize::MAX - evac_headroom {
            available_blocks + evac_headroom
        } else {
            usize::MAX
        };
        if evacuation || available_evac_blocks < evac_threshhold {
            let hole_threshhold = self.establish_hole_threshhold(evac_headroom, space);
            perform_evac = USE_EVACUATION && hole_threshhold > 0;
            if perform_evac {
                let mut k: usize = 0;
                while k < self.all_blocks.len()
                    invariant
                        space.wf(),
                        self.wf_for(space),
                        k <= self.all_blocks@.len(),
                        space.block_allocator.blocks@.len() == old(space).block_allocator.blocks@.len(),
                        space.current_live_mark == old(space).current_live_mark,
                        self.all_blocks@ == old(self).all_blocks@,
                        *self == *old(self),
                        hole_threshhold >= 1,
                        forall|i: int|
                            0 <= i < old(space).block_allocator.blocks@.len()
                                ==> #[trigger] space.spec_block(i) == (crate::block::ImmixBlock {
                                evacuation_candidate: space.spec_block(i).evacuation_candidate,
                                ..old(space).spec_block(i)
                            }),
                        forall|q: int|
                            0 <= q < k ==> space.spec_block(
                                #[trigger] old(self).all_blocks@[q] as int,
                            ).evacuation_candidate == (old(space).spec_block(
                                old(self).all_blocks@[q] as int,
                            ).hole_count >= hole_threshhold),
                    decreases self.all_blocks@.len() - k,
                {
                    let b = self.all_blocks[k];
                    let cand = space.block_allocator.blocks[b].hole_count as usize
                        >= hole_threshhold;
                    let ghost pre = *space;
                    space.set_evacuation_candidate(b, cand);
                    proof {
                        assert forall|i: int|
                            0 <= i < old(space).block_allocator.blocks@.len() implies
                            #[trigger] space.spec_block(i) == (crate::block::ImmixBlock {
                            evacuation_candidate: space.spec_block(i).evacuation_candidate,
                            ..old(space).spec_block(i)
                        }) by {
                            if i != b {
                                assert(space.spec_block(i) == pre.spec_block(i));
                            }
                        }
                        assert forall|q: int|
                            0 <= q < k + 1 implies space.spec_block(
                            #[trigger] old(self).all_blocks@[q] as int,
                        ).evacuation_candidate == (old(space).spec_block(
                            old(self).all_blocks@[q] as int,
                        ).hole_count >= hole_threshhold) by {
                            if old(self).all_blocks@[q] != b {
                                assert(space.spec_block(old(self).all_blocks@[q] as int)
                                    == pre.spec_block(old(self).all_blocks@[q] as int));
                            } else {
                                assert(pre.spec_block(b as int).hole_count == old(
                                    space,
                                ).spec_block(b as int).hole_count);
                            }
                        }
                    }
                    k = k + 1;
                }
                proof {
                    assert(candidates_selected_by(
                        old(space),
                        space,
                        old(self).all_blocks@,
                        hole_threshhold as int,
                    ));
                }
            }
        }
        if perform_evac {
            crate::CollectionType::ImmixEvacCollection
        } else {
            crate::CollectionType::ImmixCollection
        }
    }

    /// Sweeps every gathered block: blocks with no marked line are reset
    /// and freed; the rest have their holes recounted and tallied into the
    /// mark histogram, and are kept as unavailable when they have no hole
    /// or handed back as recyclable otherwise.  In the free pool every
    /// line bit is clear and the allocated flag is down; in the
    /// unavailable pool every line bit is set.
    fn sweep_all_blocks(&mut self, space: &mut ImmixSpace) -> (r: (Vec<usize>, Vec<usize>))
        requires
            old(space).wf(),
            old(self).wf_for(old(space)),
            vec_map_view(old(self).mark_histogram) == empty_hist(),
        ensures
            // The histogram is exactly the tally of the gathered blocks.
            vec_map_view(final (self).mark_histogram) == hist_tally(
                old(space),
                old(self).all_blocks@,
                old(self).all_blocks@.len() as int,
            ),
            final (space).wf(),
            final (self).wf_for(final (space)),
            final (space).block_allocator.blocks@.len() == old(space).block_allocator.blocks@.len(),
            final (space).current_live_mark == old(space).current_live_mark,
            forall|k: int|
                0 <= k < r.0@.len() ==> (#[trigger] r.0@[k] as int) < final (space).block_allocator.blocks@.len(),
            forall|k: int|
                0 <= k < r.1@.len() ==> (#[trigger] r.1@[k] as int) < final (space).block_allocator.blocks@.len(),
            // The free pool: every line clear, not allocated.
            forall|k: int|
                0 <= k < r.1@.len() ==> {
                    let blk = final (space).spec_block(#[trigger] r.1@[k] as int);
                    &&& !blk.allocated
                    &&& blk.hole_count == 0
                    &&& !blk.evacuation_candidate
                    &&& forall|l: int| 0 <= l < NUM_LINES_PER_BLOCK ==> !blk.line_map@[l]
                },
            // The unavailable pool: no hole, every line set.
            forall|k: int|
                0 <= k < final (self).all_blocks@.len() ==> {
                    let blk = final (space).spec_block(
                        #[trigger] final (self).all_blocks@[k] as int,
                    );
                    &&& blk.hole_count == 0
                    &&& forall|l: int| 0 <= l < NUM_LINES_PER_BLOCK ==> blk.line_map@[l]
                },
            // The recyclable pool: at least one hole.
            forall|k: int|
                0 <= k < r.0@.len() ==> final (space).spec_block(
                    #[trigger] r.0@[k] as int,
                ).hole_count >= 1,
            // The sweep reads line maps and clears freed ones; it marks no
            // line.
            forall|i: int|
                0 <= i < final (space).block_allocator.blocks@.len() ==> #[trigger] final (space).spec_block(
                    i,
                ).line_map@ == old(space).spec_block(i).line_map@ || (lines_clear(
                    final (space).spec_block(i).line_map@,
                ) && lines_clear(old(space).spec_block(i).line_map@)),
            // The sweep installs no header: each is kept or cleared.
            final (space).block_allocator.mmap == old(space).block_allocator.mmap,
            forall|bb: int, gg: int|
                0 <= bb < old(space).block_allocator.blocks@.len() && 0 <= gg < BLOCK_GRANULES
                    ==> (#[trigger] final (space).spec_block(bb).spec_header(gg)) == old(
                    space,
                ).spec_block(bb).spec_header(gg) || final (space).spec_block(bb).spec_header(gg)
                    == 0,
            // Every gathered block is classified by its line map: an empty
            // block is freed, a marked block without a hole stays
            // unavailable, a marked block with holes is handed back as
            // recyclable.
            forall|k: int|
                0 <= k < old(self).all_blocks@.len() ==> {
                    let b = #[trigger] old(self).all_blocks@[k] as int;
                    let lines = old(space).spec_block(b).line_map@;
                    &&& (lines_clear(lines) ==> appears_in(r.1@, b))
                    &&& (!lines_clear(lines) && spec_holes(lines) == 0 ==> appears_in(
                        final (self).all_blocks@,
                        b,
                    ))
                    &&& (!lines_clear(lines) && spec_holes(lines) >= 1 ==> appears_in(r.0@, b))
                },
            // Every marked block's line tally lands in the histogram under
            // its hole count.
            forall|k: int|
                0 <= k < old(self).all_blocks@.len() ==> {
                    let b = #[trigger] old(self).all_blocks@[k] as int;
                    let lines = old(space).spec_block(b).line_map@;
                    !lines_clear(lines) ==> vec_map_view(final (self).mark_histogram).dom().contains(
                        spec_holes(lines),
                    ) && vec_map_view(final (self).mark_histogram)[spec_holes(lines)]
                        >= marked_upto(lines, NUM_LINES_PER_BLOCK as int)
                },
    {
        let mut unavailable_blocks: Vec<usize> = Vec::new();
        let mut recyclable_blocks: Vec<usize> = Vec::new();
        let mut free_blocks: Vec<usize> = Vec::new();
        let n = self.all_blocks.len();
        let mut k: usize = 0;
        while k < n
            invariant
                space.wf(),
                self.wf_for(space),
                n == self.all_blocks@.len(),
                k <= n,
                space.block_allocator.blocks@.len() == old(space).block_allocator.blocks@.len(),
                space.current_live_mark == old(space).current_live_mark,
                forall|q: int|
                    0 <= q < recyclable_blocks@.len() ==> (#[trigger] recyclable_blocks@[q] as int)
                        < space.block_allocator.blocks@.len(),
                forall|q: int|
                    0 <= q < free_blocks@.len() ==> (#[trigger] free_blocks@[q] as int)
                        < space.block_allocator.blocks@.len(),
                forall|q: int|
                    0 <= q < unavailable_blocks@.len() ==> (#[trigger] unavailable_blocks@[q]
                        as int) < space.block_allocator.blocks@.len(),
                forall|q: int|
                    0 <= q < free_blocks@.len() ==> {
                        let blk = space.spec_block(#[trigger] free_blocks@[q] as int);
                        &&& !blk.allocated
                        &&& blk.hole_count == 0
                        &&& !blk.evacuation_candidate
                        &&& forall|l: int| 0 <= l < NUM_LINES_PER_BLOCK ==> !blk.line_map@[l]
                    },
                forall|q: int|
                    0 <= q < unavailable_blocks@.len() ==> {
                        let blk = space.spec_block(#[trigger] unavailable_blocks@[q] as int);
                        &&& blk.hole_count == 0
                        &&& forall|l: int| 0 <= l < NUM_LINES_PER_BLOCK ==> blk.line_map@[l]
                    },
                forall|q: int|
                    0 <= q < recyclable_blocks@.len() ==> {
                        let blk = space.spec_block(#[trigger] recyclable_blocks@[q] as int);
                        &&& blk.hole_count >= 1
                        &&& blk.hole_count == spec_holes(blk.line_map@)
                        &&& exists|l: int| 0 <= l < NUM_LINES_PER_BLOCK && blk.line_map@[l]
                    },
                self.all_blocks@ == old(self).all_blocks@,
                vec_map_view(self.mark_histogram) == hist_tally(
                    old(space),
                    old(self).all_blocks@,
                    k as int,
                ),
                space.block_allocator.mmap == old(space).block_allocator.mmap,
                forall|bb: int, gg: int|
                    0 <= bb < space.block_allocator.blocks@.len() && 0 <= gg < BLOCK_GRANULES
                        ==> (#[trigger] space.spec_block(bb).spec_header(gg)) == old(
                        space,
                    ).spec_block(bb).spec_header(gg) || space.spec_block(bb).spec_header(gg)
                        == 0,
                forall|i: int|
                    0 <= i < space.block_allocator.blocks@.len()
                        ==> #[trigger] space.spec_block(i).line_map@ == old(space).spec_block(
                        i,
                    ).line_map@ || (lines_clear(space.spec_block(i).line_map@) && lines_clear(
                        old(space).spec_block(i).line_map@,
                    )),
                forall|q: int|
                    0 <= q < k ==> {
                        let b = #[trigger] old(self).all_blocks@[q] as int;
                        let lines = old(space).spec_block(b).line_map@;
                        &&& (lines_clear(lines) ==> appears_in(free_blocks@, b))
                        &&& (!lines_clear(lines) && spec_holes(lines) == 0 ==> appears_in(
                            unavailable_blocks@,
                            b,
                        ))
                        &&& (!lines_clear(lines) && spec_holes(lines) >= 1 ==> appears_in(
                            recyclable_blocks@,
                            b,
                        ))
                    },
                forall|q: int|
                    0 <= q < k ==> {
                        let b = #[trigger] old(self).all_blocks@[q] as int;
                        let lines = old(space).spec_block(b).line_map@;
                        !lines_clear(lines) ==> vec_map_view(self.mark_histogram).dom().contains(
                            spec_holes(lines),
                        ) && vec_map_view(self.mark_histogram)[spec_holes(lines)] >= marked_upto(
                            lines,
                            NUM_LINES_PER_BLOCK as int,
                        )
                    },
            decreases n - k,
        {
            let b = self.all_blocks[k];
            let ghost pre = *space;
            let ghost oldlines = old(space).spec_block(b as int).line_map@;
            if space.block_allocator.blocks[b].is_empty() {
                proof {
                    // The block was clear at entry, so it was already clear
                    // before the sweep began.
                    assert(lines_clear(space.spec_block(b as int).line_map@));
                    assert(space.spec_block(b as int).line_map@ == oldlines || lines_clear(
                        oldlines,
                    ));
                    assert(lines_clear(oldlines));
                }
                space.reset_block(b);
                proof {
                    assert(vec_map_view(self.mark_histogram) == hist_tally(
                        old(space),
                        old(self).all_blocks@,
                        k + 1,
                    )) by {
                        assert(old(self).all_blocks@[k as int] == b);
                        assert(lines_clear(oldlines));
                    }
                }
                let ghost free0 = free_blocks@;
                free_blocks.push(b);
                proof {
                    assert(free_blocks@ == free0.push(b));
                    assert(free_blocks@[free0.len() as int] == b);
                    assert forall|i: int|
                        0 <= i < space.block_allocator.blocks@.len() implies
                        #[trigger] space.spec_block(i).line_map@ == old(space).spec_block(
                        i,
                    ).line_map@ || (lines_clear(space.spec_block(i).line_map@) && lines_clear(
                        old(space).spec_block(i).line_map@,
                    )) by {
                        if i != b {
                            assert(space.spec_block(i) == pre.spec_block(i));
                        }
                    }
                    assert forall|bb: int, gg: int|
                        0 <= bb < space.block_allocator.blocks@.len() && 0 <= gg
                            < BLOCK_GRANULES implies (
                    #[trigger] space.spec_block(bb).spec_header(gg)) == old(space).spec_block(
                        bb,
                    ).spec_header(gg) || space.spec_block(bb).spec_header(gg) == 0 by {
                        if bb != b as int {
                            assert(space.spec_block(bb) == pre.spec_block(bb));
                        } else {
                            assert(space.spec_block(bb).spec_header(gg) == 0);
                        }
                    }
                    assert forall|q: int|
                        0 <= q < unavailable_blocks@.len() implies {
                        let blk = space.spec_block(#[trigger] unavailable_blocks@[q] as int);
                        &&& blk.hole_count == 0
                        &&& forall|l: int| 0 <= l < NUM_LINES_PER_BLOCK ==> blk.line_map@[l]
                    } by {
                        if unavailable_blocks@[q] == b {
                            assert(pre.spec_block(b as int).line_map@[0]);
                            assert(false);
                        } else {
                            assert(space.spec_block(unavailable_blocks@[q] as int)
                                == pre.spec_block(unavailable_blocks@[q] as int));
                        }
                    }
                    assert forall|q: int|
                        0 <= q < recyclable_blocks@.len() implies {
                        let blk = space.spec_block(#[trigger] recyclable_blocks@[q] as int);
                        &&& blk.hole_count >= 1
                        &&& blk.hole_count == spec_holes(blk.line_map@)
                        &&& exists|l: int| 0 <= l < NUM_LINES_PER_BLOCK && blk.line_map@[l]
                    } by {
                        if recyclable_blocks@[q] == b {
                            let l = choose|l: int|
                                0 <= l < NUM_LINES_PER_BLOCK && pre.spec_block(
                                    b as int,
                                ).line_map@[l];
                            assert(pre.spec_block(b as int).line_map@[l]);
                            assert(false);
                        } else {
                            assert(space.spec_block(recyclable_blocks@[q] as int)
                                == pre.spec_block(recyclable_blocks@[q] as int));
                        }
                    }
                    assert forall|q: int|
                        0 <= q < free_blocks@.len() implies {
                        let blk = space.spec_block(#[trigger] free_blocks@[q] as int);
                        &&& !blk.allocated
                        &&& blk.hole_count == 0
                        &&& !blk.evacuation_candidate
                        &&& forall|l: int| 0 <= l < NUM_LINES_PER_BLOCK ==> !blk.line_map@[l]
                    } by {
                        if free_blocks@[q] != b {
                            assert(space.spec_block(free_blocks@[q] as int) == pre.spec_block(
                                free_blocks@[q] as int,
                            ));
                        }
                    }
                    assert forall|q: int|
                        0 <= q < k + 1 implies {
                        let bq = #[trigger] old(self).all_blocks@[q] as int;
                        let lines = old(space).spec_block(bq).line_map@;
                        &&& (lines_clear(lines) ==> appears_in(free_blocks@, bq))
                        &&& (!lines_clear(lines) && spec_holes(lines) == 0 ==> appears_in(
                            unavailable_blocks@,
                            bq,
                        ))
                        &&& (!lines_clear(lines) && spec_holes(lines) >= 1 ==> appears_in(
                            recyclable_blocks@,
                            bq,
                        ))
                    } by {
                        let bq = old(self).all_blocks@[q] as int;
                        let lines = old(space).spec_block(bq).line_map@;
                        if q == k {
                            assert(bq == b);
                            assert(free_blocks@[free0.len() as int] == bq);
                        } else {
                            if lines_clear(lines) {
                                let j = choose|j: int| 0 <= j < free0.len() && free0[j] == bq;
                                assert(free_blocks@[j] == free0[j]);
                            }
                        }
                    }
                }
            } else {
                proof {
                    // A marked line was found, so the block's lines are the
                    // ones it had when the sweep began.
                    assert(!lines_clear(pre.spec_block(b as int).line_map@));
                    assert(pre.spec_block(b as int).line_map@ == oldlines);
                    assert(!lines_clear(oldlines));
                }
                let holes = space.count_block_holes(b);
                let (_, marked_lines) =
                    space.block_allocator.blocks[b].count_holes_and_marked_lines();
                proof {
                    assert(space.spec_block(b as int).line_map@ == oldlines);
                    assert(holes == spec_holes(oldlines));
                    assert(marked_lines == marked_upto(oldlines, NUM_LINES_PER_BLOCK as int));
                    assert forall|bb: int, gg: int|
                        0 <= bb < space.block_allocator.blocks@.len() && 0 <= gg
                            < BLOCK_GRANULES implies (
                    #[trigger] space.spec_block(bb).spec_header(gg)) == old(space).spec_block(
                        bb,
                    ).spec_header(gg) || space.spec_block(bb).spec_header(gg) == 0 by {
                        if bb != b as int {
                            assert(space.spec_block(bb) == pre.spec_block(bb));
                        } else {
                            assert(space.spec_block(bb).headers@ == pre.spec_block(bb).headers@);
                        }
                        assert(space.spec_block(bb).spec_header(gg) == pre.spec_block(
                            bb,
                        ).spec_header(gg));
                        assert(pre.spec_block(bb).spec_header(gg) == old(space).spec_block(
                            bb,
                        ).spec_header(gg) || pre.spec_block(bb).spec_header(gg) == 0);
                    }
                }
                let ghost hist0 = self.mark_histogram;
                let prev = match vec_map_get(&self.mark_histogram, holes) {
                    Some(v) => v,
                    None => 0,
                };
                let sum = if prev <= usize::MAX - marked_lines {
                    prev + marked_lines
                } else {
                    prev
                };
                vec_map_insert(&mut self.mark_histogram, holes, sum);
                proof {
                    assert(sum >= marked_lines && sum >= prev);
                    assert(vec_map_view(self.mark_histogram) == hist_tally(
                        old(space),
                        old(self).all_blocks@,
                        k + 1,
                    )) by {
                        assert(old(self).all_blocks@[k as int] == b);
                        assert(!lines_clear(oldlines));
                        assert(vec_map_view(hist0) == hist_tally(
                            old(space),
                            old(self).all_blocks@,
                            k as int,
                        ));
                        assert(hist_tally(old(space), old(self).all_blocks@, k + 1) == hist_tally(
                            old(space),
                            old(self).all_blocks@,
                            k as int,
                        ).insert(spec_holes(oldlines), sum));
                    }
                    assert forall|q: int|
                        0 <= q < k + 1 implies {
                        let bq = #[trigger] old(self).all_blocks@[q] as int;
                        let lines = old(space).spec_block(bq).line_map@;
                        !lines_clear(lines) ==> vec_map_view(self.mark_histogram).dom().contains(
                            spec_holes(lines),
                        ) && vec_map_view(self.mark_histogram)[spec_holes(lines)] >= marked_upto(
                            lines,
                            NUM_LINES_PER_BLOCK as int,
                        )
                    } by {
                        let bq = old(self).all_blocks@[q] as int;
                        let lines = old(space).spec_block(bq).line_map@;
                        if !lines_clear(lines) {
                            if q < k {
                                if spec_holes(lines) == holes as int {
                                    assert(vec_map_view(hist0).dom().contains(holes as int));
                                    assert(prev == vec_map_view(hist0)[holes as int]);
                                } else {
                                    assert(vec_map_view(self.mark_histogram)[spec_holes(lines)]
                                        == vec_map_view(hist0)[spec_holes(lines)]);
                                }
                            }
                        }
                    }
                }
                let ghost unav0 = unavailable_blocks@;
                let ghost rec0 = recyclable_blocks@;
                if holes == 0 {
                    proof {
                        lemma_holes_zero(space.spec_block(b as int).line_map@, 0);
                    }
                    unavailable_blocks.push(b);
                    proof {
                        assert(unavailable_blocks@ == unav0.push(b));
                        assert(unavailable_blocks@[unav0.len() as int] == b);
                    }
                } else {
                    recyclable_blocks.push(b);
                    proof {
                        assert(recyclable_blocks@ == rec0.push(b));
                        assert(recyclable_blocks@[rec0.len() as int] == b);
                    }
                }
                proof {
                    assert forall|q: int|
                        0 <= q < free_blocks@.len() implies {
                        let blk = space.spec_block(#[trigger] free_blocks@[q] as int);
                        &&& !blk.allocated
                        &&& blk.hole_count == 0
                        &&& !blk.evacuation_candidate
                        &&& forall|l: int| 0 <= l < NUM_LINES_PER_BLOCK ==> !blk.line_map@[l]
                    } by {
                        if free_blocks@[q] == b {
                            assert(!pre.spec_block(b as int).line_map@[0]);
                            assert(space.spec_block(b as int).line_map@ == pre.spec_block(
                                b as int,
                            ).line_map@);
                        } else {
                            assert(space.spec_block(free_blocks@[q] as int) == pre.spec_block(
                                free_blocks@[q] as int,
                            ));
                        }
                    }
                    assert forall|q: int|
                        0 <= q < unavailable_blocks@.len() implies {
                        let blk = space.spec_block(#[trigger] unavailable_blocks@[q] as int);
                        &&& blk.hole_count == 0
                        &&& forall|l: int| 0 <= l < NUM_LINES_PER_BLOCK ==> blk.line_map@[l]
                    } by {
                        if unavailable_blocks@[q] == b {
                            lemma_holes_zero(pre.spec_block(b as int).line_map@, 0);
                        } else {
                            assert(space.spec_block(unavailable_blocks@[q] as int)
                                == pre.spec_block(unavailable_blocks@[q] as int));
                        }
                    }
                    assert forall|q: int|
                        0 <= q < recyclable_blocks@.len() implies {
                        let blk = space.spec_block(#[trigger] recyclable_blocks@[q] as int);
                        &&& blk.hole_count >= 1
                        &&& blk.hole_count == spec_holes(blk.line_map@)
                        &&& exists|l: int| 0 <= l < NUM_LINES_PER_BLOCK && blk.line_map@[l]
                    } by {
                        if recyclable_blocks@[q] == b {
                            assert(!(forall|l: int|
                                0 <= l < NUM_LINES_PER_BLOCK ==> !pre.spec_block(
                                    b as int,
                                ).line_map@[l]));
                        } else {
                            assert(space.spec_block(recyclable_blocks@[q] as int)
                                == pre.spec_block(recyclable_blocks@[q] as int));
                        }
                    }
                    assert forall|i: int|
                        0 <= i < space.block_allocator.blocks@.len() implies
                        #[trigger] space.spec_block(i).line_map@ == old(space).spec_block(
                        i,
                    ).line_map@ || (lines_clear(space.spec_block(i).line_map@) && lines_clear(
                        old(space).spec_block(i).line_map@,
                    )) by {
                        if i != b {
                            assert(space.spec_block(i) == pre.spec_block(i));
                        } else {
                            assert(space.spec_block(i).line_map@ == oldlines);
                        }
                    }
                    assert forall|q: int|
                        0 <= q < k + 1 implies {
                        let bq = #[trigger] old(self).all_blocks@[q] as int;
                        let lines = old(space).spec_block(bq).line_map@;
                        &&& (lines_clear(lines) ==> appears_in(free_blocks@, bq))
                        &&& (!lines_clear(lines) && spec_holes(lines) == 0 ==> appears_in(
                            unavailable_blocks@,
                            bq,
                        ))
                        &&& (!lines_clear(lines) && spec_holes(lines) >= 1 ==> appears_in(
                            recyclable_blocks@,
                            bq,
                        ))
                    } by {
                        let bq = old(self).all_blocks@[q] as int;
                        let lines = old(space).spec_block(bq).line_map@;
                        if q == k {
                            assert(bq == b);
                            assert(!lines_clear(lines));
                            if spec_holes(lines) == 0 {
                                assert(unavailable_blocks@[unav0.len() as int] == bq);
                            } else {
                                assert(recyclable_blocks@[rec0.len() as int] == bq);
                            }
                        } else {
                            if lines_clear(lines) {
                                let j = choose|j: int|
                                    0 <= j < free_blocks@.len() && free_blocks@[j] == bq;
                                assert(free_blocks@[j] == bq);
                            } else if spec_holes(lines) == 0 {
                                let j = choose|j: int| 0 <= j < unav0.len() && unav0[j] == bq;
                                assert(unavailable_blocks@[j] == unav0[j]);
                            } else {
                                lemma_holes_bounded(lines, 0, false);
                                assert(spec_holes(lines) >= 1);
                                let j = choose|j: int| 0 <= j < rec0.len() && rec0[j] == bq;
                                assert(recyclable_blocks@[j] == rec0[j]);
                            }
                        }
                    }
                }
            }
            k = k + 1;
        }
        proof {
            assert forall|q: int|
                0 <= q < old(self).all_blocks@.len() implies {
                let bq = #[trigger] old(self).all_blocks@[q] as int;
                let lines = old(space).spec_block(bq).line_map@;
                &&& (lines_clear(lines) ==> appears_in(free_blocks@, bq))
                &&& (!lines_clear(lines) && spec_holes(lines) == 0 ==> appears_in(
                    unavailable_blocks@,
                    bq,
                ))
                &&& (!lines_clear(lines) && spec_holes(lines) >= 1 ==> appears_in(
                    recyclable_blocks@,
                    bq,
                ))
            } by {}
            assert forall|q: int|
                0 <= q < old(self).all_blocks@.len() implies {
                let bq = #[trigger] old(self).all_blocks@[q] as int;
                let lines = old(space).spec_block(bq).line_map@;
                !lines_clear(lines) ==> vec_map_view(self.mark_histogram).dom().contains(
                    spec_holes(lines),
                ) && vec_map_view(self.mark_histogram)[spec_holes(lines)] >= marked_upto(
                    lines,
                    NUM_LINES_PER_BLOCK as int,
                )
            } by {}
        }
        self.all_blocks = unavailable_blocks;
        (recyclable_blocks, free_blocks)
    }

    /// Runs one full cycle over the gathered blocks: clears their line
    /// maps and object-start bits, traces from the roots, sweeps the
    /// blocks, refills the evacuation headroom from the freed blocks,
    /// returns the rest to the block allocator, and sweeps the
    /// large-object space.  Returns the visited byte total and whether the
    /// cycle ran to completion; an abandoned cycle keeps its blocks and
    /// reclaims nothing.
    pub fn collect(
        &mut self,
        collection_type: &crate::CollectionType,
        roots: &Vec<usize>,
        precise_roots: &mut Vec<usize>,
        immix_space: &mut ImmixSpace,
        large_object_space: &mut LargeObjectSpace,
        rttis: &Vec<GCRTTI>,
        finalized: &mut Vec<usize>,
        next_live_mark: bool,
    ) -> (r: (usize, bool))
        requires
            old(immix_space).wf(),
            old(large_object_space).wf(),
            old(self).wf_for(old(immix_space)),
            forall|i: int| 0 <= i < rttis@.len() ==> (#[trigger] rttis@[i]).wf(),
        ensures
            final (immix_space).wf(),
            final (large_object_space).wf(),
            final (self).wf_for(final (immix_space)),
            final (immix_space).block_allocator.blocks@.len() == old(immix_space).block_allocator.blocks@.len(),
            final (precise_roots)@.len() == old(precise_roots)@.len(),
            final (immix_space).current_live_mark == old(immix_space).current_live_mark,
            final (large_object_space).current_live_mark == old(large_object_space).current_live_mark,
            final (large_object_space).alloc_cursor == old(large_object_space).alloc_cursor,
            !r.1 ==> r.0 == 0,
            // After a completed cycle the collector keeps only hole-free,
            // fully marked blocks, and every recyclable block handed to the
            // space has a hole.
            r.1 ==> forall|k: int|
                0 <= k < final (self).all_blocks@.len() ==> {
                    let blk = final (immix_space).spec_block(
                        #[trigger] final (self).all_blocks@[k] as int,
                    );
                    &&& blk.hole_count == 0
                    &&& forall|l: int| 0 <= l < NUM_LINES_PER_BLOCK ==> blk.line_map@[l]
                },
            r.1 ==> forall|k: int|
                0 <= k < final (immix_space).recyclable_blocks@.len() ==> final (immix_space).spec_block(
                    #[trigger] final (immix_space).recyclable_blocks@[k] as int,
                ).hole_count >= 1,
            // After a completed cycle the histogram is exactly the tally of
            // the gathered blocks' line maps.
            r.1 ==> vec_map_view(final (self).mark_histogram) == hist_tally(
                final (immix_space),
                old(self).all_blocks@,
                old(self).all_blocks@.len() as int,
            ),
            // A completed non-evacuating cycle leaves every root bearing
            // the new polarity, and sweeping does not take a mark back.
            r.1 && *collection_type is ImmixCollection ==> forall|k: int|
                0 <= k < roots@.len() ==> root_marked(
                    final (immix_space),
                    final (large_object_space),
                    #[trigger] roots@[k] as int,
                    next_live_mark,
                ),
    {
        let n = self.all_blocks.len();
        let mut k: usize = 0;
        while k < n
            invariant
                immix_space.wf(),
                self.wf_for(immix_space),
                n == self.all_blocks@.len(),
                k <= n,
                immix_space.block_allocator.blocks@.len() == old(immix_space).block_allocator.blocks@.len(),
                immix_space.current_live_mark == old(immix_space).current_live_mark,
            decreases n - k,
        {
            let b = self.all_blocks[k];
            immix_space.clear_bitmap_for_block(b);
            immix_space.clear_block_lines(b);
            k = k + 1;
        }
        let (visited, complete) = ImmixCollector::collect(
            collection_type,
            roots,
            precise_roots,
            immix_space,
            large_object_space,
            rttis,
            next_live_mark,
        );
        if !complete {
            // Marking was abandoned: keep the blocks for the next cycle
            // and reclaim nothing.
            return (0, false);
        }
        let ghost marked_s = *immix_space;
        let ghost marked_l = *large_object_space;
        vec_map_clear(&mut self.mark_histogram);
        let (recyclable_blocks, free_blocks) = self.sweep_all_blocks(immix_space);
        let ghost swept = *immix_space;
        let ghost swept_self = *self;
        let ghost recyc = recyclable_blocks@;
        immix_space.set_recyclable_blocks(recyclable_blocks);
        let have = immix_space.evac_headroom();
        let need: usize = if USE_EVACUATION && have < EVAC_HEADROOM {
            EVAC_HEADROOM - have
        } else {
            0
        };
        let refill = if need <= free_blocks.len() {
            need
        } else {
            free_blocks.len()
        };
        let mut k: usize = 0;
        while k < refill
            invariant
                immix_space.wf(),
                self.wf_for(immix_space),
                refill <= free_blocks@.len(),
                k <= refill,
                forall|q: int|
                    0 <= q < free_blocks@.len() ==> (#[trigger] free_blocks@[q] as int)
                        < immix_space.block_allocator.blocks@.len(),
                immix_space.block_allocator.blocks@ == swept.block_allocator.blocks@,
                immix_space.block_allocator.mmap == swept.block_allocator.mmap,
                immix_space.recyclable_blocks@ == recyc,
                *self == swept_self,
                immix_space.block_allocator.blocks@.len() == old(immix_space).block_allocator.blocks@.len(),
                immix_space.current_live_mark == old(immix_space).current_live_mark,
            decreases refill - k,
        {
            immix_space.push_evac_headroom(free_blocks[k]);
            k = k + 1;
        }
        immix_space.return_blocks(&free_blocks, refill);
        large_object_space.sweep(rttis, finalized);
        proof {
            assert(immix_space.block_allocator.blocks@ == swept.block_allocator.blocks@);
            assert(immix_space.recyclable_blocks@ == recyc);
            assert(self.all_blocks@ == swept_self.all_blocks@);
            assert forall|q: int|
                0 <= q < self.all_blocks@.len() implies {
                let blk = immix_space.spec_block(#[trigger] self.all_blocks@[q] as int);
                &&& blk.hole_count == 0
                &&& forall|l: int| 0 <= l < NUM_LINES_PER_BLOCK ==> blk.line_map@[l]
            } by {
                assert(swept.spec_block(swept_self.all_blocks@[q] as int).hole_count == 0);
            }
            assert forall|q: int|
                0 <= q < immix_space.recyclable_blocks@.len() implies immix_space.spec_block(
                #[trigger] immix_space.recyclable_blocks@[q] as int,
            ).hole_count >= 1 by {
                assert(swept.spec_block(recyc[q] as int).hole_count >= 1);
            }
            assert(vec_map_view(self.mark_histogram) == hist_tally(
                &marked_s,
                old(self).all_blocks@,
                old(self).all_blocks@.len() as int,
            ));
            lemma_hist_tally_same_lines(
                &marked_s,
                &swept,
                old(self).all_blocks@,
                old(self).all_blocks@.len() as int,
            );
            assert forall|i: int|
                0 <= i < old(self).all_blocks@.len() implies (#[trigger] immix_space.spec_block(
                old(self).all_blocks@[i] as int,
            )).line_map@ == swept.spec_block(old(self).all_blocks@[i] as int).line_map@ by {
                assert(immix_space.block_allocator.blocks@ == swept.block_allocator.blocks@);
            }
            lemma_hist_tally_same_lines(
                &swept,
                immix_space,
                old(self).all_blocks@,
                old(self).all_blocks@.len() as int,
            );
            if *collection_type is ImmixCollection {
                assert forall|k: int| 0 <= k < roots@.len() implies root_marked(
                    immix_space,
                    large_object_space,
                    #[trigger] roots@[k] as int,
                    next_live_mark,
                ) by {
                    assert(root_marked(&marked_s, &marked_l, roots@[k] as int, next_live_mark));
                    assert forall|bb: int, gg: int|
                        0 <= bb < marked_s.block_allocator.blocks@.len() && 0 <= gg
                            < BLOCK_GRANULES implies (
                    #[trigger] immix_space.spec_block(bb).spec_header(gg))
                        == marked_s.spec_block(bb).spec_header(gg) || immix_space.spec_block(
                        bb,
                    ).spec_header(gg) == 0 by {
                        assert(immix_space.spec_block(bb) == swept.spec_block(bb));
                    }
                    lemma_root_marked_sweep(
                        &marked_s,
                        &marked_l,
                        immix_space,
                        large_object_space,
                        roots@[k] as int,
                        next_live_mark,
                    );
                }
            }
        }
        (visited, true)
    }
}

} // verus!
