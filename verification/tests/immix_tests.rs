use immixcons::block::ImmixBlock;
use immixcons::constants::BLOCK_SIZE;
use immixcons::constants::EVAC_HEADROOM;
use immixcons::constants::LARGE_OBJECT;
use immixcons::constants::LINE_SIZE;
use immixcons::constants::MEDIUM_OBJECT;
use immixcons::constants::NUM_LINES_PER_BLOCK;
use immixcons::immix_alloc;
use immixcons::immix_collect;
use immixcons::immix_init;
use immixcons::large_object_space::PreciseAllocation;
use immixcons::object::GCRTTI;
use immixcons::size_class;
use immixcons::util::Address;
use immixcons::CollectionType;
use immixcons::Immix;
use immixcons::SizeClass;

fn rtti_plain(size: usize) -> GCRTTI {
    GCRTTI { heap_size: size, ref_slots: Vec::new(), needs_finalization: false, finalizer: false }
}

fn rtti_with_refs(size: usize, refs: Vec<u32>) -> GCRTTI {
    GCRTTI { heap_size: size, ref_slots: refs, needs_finalization: false, finalizer: false }
}

fn init() -> Immix {
    immix_init(64 * 1024 * 1024, 0)
}

#[test]
fn simple() {
    let mut heap = init();
    let box8 = heap.register_rtti(rtti_plain(8));
    let p = immix_alloc(&mut heap, 8, box8);
    assert!(p != 0);
    assert!(heap.write_word(p, 0, 42));
    assert_eq!(heap.read_word(p, 0), Some(42));
    let root = heap.add_root(p);
    immix_collect(&mut heap, true);
    let p = heap.root(root);
    let x = immix_alloc(&mut heap, 8, box8);
    assert!(x != 0);
    assert!(heap.write_word(x, 0, 3));
    assert_eq!(heap.read_word(x, 0), Some(3));
    assert_eq!(heap.read_word(p, 0), Some(42));
}

#[test]
fn smash() {
    let mut heap = init();
    let box8 = heap.register_rtti(rtti_plain(8));
    let mut arr: Vec<usize> = Vec::with_capacity(7000);
    for i in 0..7000usize {
        let p = immix_alloc(&mut heap, 8, box8);
        assert!(p != 0);
        assert!(heap.write_word(p, 0, 4));
        arr.push(heap.add_root(p));
        if i % 3000 == 0 {
            immix_collect(&mut heap, true);
        }
        if i % 5678 == 0 {
            let q = heap.root(arr[i / 2000]);
            assert_eq!(heap.read_word(q, 0), Some(4));
            assert!(heap.write_word(q, 0, 42));
            assert_eq!(heap.read_word(q, 0), Some(42));
        }
    }
}

#[test]
fn middle() {
    let mut heap = init();
    let r4096 = heap.register_rtti(rtti_plain(4096));
    let r2048 = heap.register_rtti(rtti_plain(2048));
    for _ in 0..20000 {
        assert!(immix_alloc(&mut heap, 4096, r4096) != 0);
        assert!(immix_alloc(&mut heap, 4096, r4096) != 0);
    }
    for _ in 0..20000 {
        assert!(immix_alloc(&mut heap, 2048, r2048) != 0);
        assert!(immix_alloc(&mut heap, 2048, r2048) != 0);
    }
    assert!(true);
}

// Alternating medium allocations leave no null pointer behind and the
// resident block count stays near the live total once the garbage is
// collected away.
#[test]
fn stress_medium_resident() {
    let mut heap = init();
    let r4096 = heap.register_rtti(rtti_plain(4096));
    let r2048 = heap.register_rtti(rtti_plain(2048));
    for _ in 0..20000 {
        assert!(immix_alloc(&mut heap, 4096, r4096) != 0);
        assert!(immix_alloc(&mut heap, 2048, r2048) != 0);
    }
    immix_collect(&mut heap, false);
    let live = heap.allocated;
    let resident_blocks =
        heap.immix.block_allocator.blocks.len() - heap.immix.block_allocator.free_blocks.len();
    let resident = resident_blocks * BLOCK_SIZE;
    assert!(resident <= live + (live / 4) * 3 + BLOCK_SIZE * (EVAC_HEADROOM + 3));
}

// An object one byte under the line size takes the small path; a full
// line forces a medium allocation.
#[test]
fn line_size_boundary() {
    assert_eq!(size_class(LINE_SIZE - 1), SizeClass::Small);
    assert_eq!(size_class(LINE_SIZE), SizeClass::Medium);
    assert_eq!(MEDIUM_OBJECT, LINE_SIZE);
    let mut heap = init();
    let small = heap.register_rtti(rtti_plain(LINE_SIZE - 1));
    let medium = heap.register_rtti(rtti_plain(LINE_SIZE));
    // One byte under a line is served by the small bump path: the
    // overflow hold stays untouched.
    let p = immix_alloc(&mut heap, LINE_SIZE - 1, small);
    assert!(p != 0);
    assert!(heap.immix.current_ovf_block.is_none());
    assert!(heap.immix.current_block.is_some());
    // A full line goes to the overflow block.
    let q = immix_alloc(&mut heap, LINE_SIZE, medium);
    assert!(q != 0);
    assert!(heap.immix.current_ovf_block.is_some());
    assert!(p % 16 == 0 && q % 16 == 0);
}

// An object one byte under the large-object threshold stays in the Immix
// space; the threshold itself goes to the large-object space.
#[test]
fn large_object_boundary() {
    assert_eq!(size_class(LARGE_OBJECT - 1), SizeClass::Medium);
    assert_eq!(size_class(LARGE_OBJECT), SizeClass::Large);
    let mut heap = init();
    let medium = heap.register_rtti(rtti_plain(LARGE_OBJECT - 1));
    let large = heap.register_rtti(rtti_plain(LARGE_OBJECT));
    let p = immix_alloc(&mut heap, LARGE_OBJECT - 1, medium);
    let q = immix_alloc(&mut heap, LARGE_OBJECT, large);
    assert!(p != 0 && q != 0);
    // An Immix pointer is 16-byte aligned; a large-object cell carries the
    // half-alignment tag.
    assert_eq!(p % 16, 0);
    assert_eq!(q % 16, 8);
    assert!(heap.immix.filter(Address::from(p)) == Some(Address::from(p)));
    assert!(heap.los.contains(Address::from(q)));
}

// Every pointer the allocator returns is found by the pointer filter of
// its space; an address never handed out is found by neither.
#[test]
fn filter_correctness() {
    let mut heap = init();
    let box8 = heap.register_rtti(rtti_plain(8));
    let big = heap.register_rtti(rtti_plain(LARGE_OBJECT));
    let p = immix_alloc(&mut heap, 8, box8);
    let q = immix_alloc(&mut heap, LARGE_OBJECT, big);
    assert_eq!(heap.immix.filter(Address::from(p)), Some(Address::from(p)));
    assert!(heap.los.contains(Address::from(q)));
    assert!(!heap.los.contains(Address::from(p)));
    assert_eq!(heap.immix.filter(Address::from(q)), None);
    // An address in the space where nothing was ever allocated.
    let stray = p + 4096;
    assert_eq!(heap.immix.filter(Address::from(stray)), None);
    // An interior pointer into the first payload word resolves to the
    // object's start.
    assert_eq!(heap.immix.filter(Address::from(p + 8)), Some(Address::from(p)));
}

// A second trace of an already-evacuated object yields the same new
// address: the forwarding pointer in the old header is followed both
// times.
#[test]
fn forwarding_idempotence() {
    let mut heap = init();
    let pair = heap.register_rtti(rtti_with_refs(16, vec![0, 1]));
    let a = immix_alloc(&mut heap, 16, pair);
    let b = immix_alloc(&mut heap, 16, pair);
    assert!(heap.write_word(a, 0, b as u64));
    assert!(heap.write_word(a, 1, b as u64));
    let root = heap.add_root(a);
    // An emergency evacuating cycle makes every block a candidate, so the
    // objects move; both slots of `a` named `b` and must agree afterwards.
    let none: Vec<usize> = Vec::new();
    heap.collect_internal(true, true, &none);
    let a2 = heap.root(root);
    let s0 = heap.read_word(a2, 0).unwrap();
    let s1 = heap.read_word(a2, 1).unwrap();
    assert_eq!(s0, s1);
    assert!(heap.evac_collections >= 1);
}

// The hole count of a freshly scanned block never exceeds the lines per
// block, and a fresh block's first hole spans from past the metadata
// lines to the block's end.
#[test]
fn hole_scan_fresh_block() {
    let mut blk = ImmixBlock::new(BLOCK_SIZE);
    assert_eq!(blk.scan_block(0), Some(((2 * LINE_SIZE) as u16, (BLOCK_SIZE - 1) as u16)));
    let holes = blk.count_holes();
    assert_eq!(holes, 1);
    assert!(holes <= NUM_LINES_PER_BLOCK);
    assert_eq!(blk.count_holes_and_marked_lines(), (1, 0));
    assert_eq!(blk.count_holes_and_available_lines(), (1, NUM_LINES_PER_BLOCK));
}

// Marking an object's lines splits the block into two holes, and the
// single-line hole before a marked line is skipped by the scan.
#[test]
fn hole_scan_marked_lines() {
    let mut blk = ImmixBlock::new(BLOCK_SIZE);
    // Mark an object of exactly one line in the middle of the block: its
    // own line plus one conservative trailing line.
    let object = Address::from(BLOCK_SIZE + 64 * LINE_SIZE);
    blk.line_object_mark(object, LINE_SIZE);
    assert!(blk.line_is_marked(64));
    assert!(blk.line_is_marked(65));
    assert!(!blk.line_is_marked(63));
    let holes = blk.count_holes();
    assert_eq!(holes, 2);
    // The first hole runs from the metadata lines up to the marked pair.
    assert_eq!(blk.scan_block(0), Some(((2 * LINE_SIZE) as u16, (64 * LINE_SIZE - 1) as u16)));
    // Scanning past the marked pair skips line 66 (a possible implicit
    // tail) and starts at line 67.
    assert_eq!(
        blk.scan_block((65 * LINE_SIZE) as u16),
        Some(((67 * LINE_SIZE) as u16, (BLOCK_SIZE - 1) as u16))
    );
}

// The large-object header keeps the cell tagged: aligned to 8 but never
// to 16, whichever alignment the backing allocation had.
#[test]
fn precise_allocation_alignment() {
    let a = PreciseAllocation::try_create(1024, 64, 0);
    assert!(!a.adjusted_alignment);
    assert_eq!(a.cell().to_usize() % 16, 8);
    let b = PreciseAllocation::try_create(1032, 64, 1);
    assert!(b.adjusted_alignment);
    assert_eq!(b.cell().to_usize() % 16, 8);
    assert_eq!(b.base_pointer(), 1032);
    assert!(PreciseAllocation::is_precise(a.cell()));
    assert!(!PreciseAllocation::is_precise(Address::from(1024)));
}

// A dropped large object is finalized by the sweep after a collection;
// rooted large objects survive with their payloads untouched.
#[test]
fn large_object_retention() {
    let mut heap = init();
    let big = heap.register_rtti(GCRTTI {
        heap_size: 8192,
        ref_slots: Vec::new(),
        needs_finalization: false,
        finalizer: true,
    });
    let dead = immix_alloc(&mut heap, 8192, big);
    assert!(dead != 0);
    let mut kept: Vec<(usize, u64)> = Vec::new();
    for i in 0..32u64 {
        let p = immix_alloc(&mut heap, 8192, big);
        assert!(p != 0);
        assert!(heap.write_word(p, 0, 1000 + i));
        heap.add_root(p);
        kept.push((heap.roots.len() - 1, 1000 + i));
    }
    immix_collect(&mut heap, false);
    assert!(heap.was_finalized(dead));
    for (slot, val) in kept {
        let p = heap.root(slot);
        assert!(!heap.was_finalized(p));
        assert_eq!(heap.read_word(p, 0), Some(val));
    }
}

// A conservative root naming the first payload word pins the object: even
// an emergency evacuating cycle that moves its unpinned neighbour leaves
// the pinned object in place.
#[test]
fn pinned_conservative_root() {
    let mut heap = init();
    let box8 = heap.register_rtti(rtti_plain(8));
    let cell = heap.register_rtti(rtti_plain(16));
    let holder = heap.register_rtti(rtti_with_refs(16, vec![0]));
    // Stock the evacuation headroom: make garbage, then collect.
    for _ in 0..4000 {
        assert!(immix_alloc(&mut heap, 8, box8) != 0);
    }
    immix_collect(&mut heap, false);
    assert!(heap.immix.evac_headroom() >= 1);
    let p = immix_alloc(&mut heap, 16, cell);
    assert!(heap.write_word(p, 0, 77));
    // A rooted holder references the cell, so tracing would relocate the
    // cell if it were not pinned.
    let h = immix_alloc(&mut heap, 16, holder);
    assert!(heap.write_word(h, 0, p as u64));
    let hroot = heap.add_root(h);
    // The conservative scan sees an interior pointer at offset 8 into the
    // cell.
    let cons = vec![p + 8];
    heap.collect_internal(true, true, &cons);
    // The unpinned holder moved; the pinned cell stayed at its address
    // with its payload, and the holder's slot still names it.
    let h2 = heap.root(hroot);
    assert!(h2 != h);
    assert_eq!(heap.read_word(p, 0), Some(77));
    assert_eq!(heap.read_word(h2, 0), Some(p as u64));
    assert_eq!(heap.immix.filter(Address::from(p)), Some(Address::from(p)));
}

// The mark histogram drives the evacuation decision: a histogram that
// already demands more lines than the headroom offers makes a requested
// evacuation fall back to a plain marking cycle, while an empty histogram
// lets it proceed.
#[test]
fn histogram_drives_evacuation_decision() {
    let mut heap = init();
    let box8 = heap.register_rtti(rtti_plain(8));
    assert!(immix_alloc(&mut heap, 8, box8) != 0);
    // An empty histogram: the threshold search finds no demand, so the
    // requested evacuation goes ahead.
    let t = heap.collector.prepare_collection(true, true, 0, 1, 1000, false, &mut heap.immix);
    assert_eq!(t, CollectionType::ImmixEvacCollection);
    // A histogram demanding a thousand lines against one headroom block:
    // the threshold search stops at zero holes and evacuation is declined.
    heap.collector.mark_histogram.insert(0, 1000);
    let t = heap.collector.prepare_collection(true, true, 0, 1, 1000, false, &mut heap.immix);
    assert_eq!(t, CollectionType::ImmixCollection);
}

// The GCBench binary-tree workload: a long-lived tree outlives waves of
// short-lived trees and several cycles, and its leftmost leaf still reads
// zero at the end.
#[test]
fn binary_trees() {
    fn tree_size(depth: u32) -> usize {
        (1usize << (depth + 1)) - 1
    }
    fn make_tree(heap: &mut Immix, node: usize, depth: u32) -> u64 {
        let p = immix_alloc(heap, 32, node);
        assert!(p != 0);
        let root = heap.add_root(p);
        if depth > 0 {
            let l = make_tree(heap, node, depth - 1);
            // Keep the left subtree rooted while the right one is built:
            // a cycle in between may move or reclaim unrooted objects.
            let lroot = heap.add_root(l as usize);
            let r = make_tree(heap, node, depth - 1);
            let p = heap.root(root);
            let l = heap.root(lroot) as u64;
            assert!(heap.write_word(p, 0, l));
            assert!(heap.write_word(p, 1, r));
            heap.set_root(lroot, 0);
        }
        let p = heap.root(root);
        heap.write_word(p, 2, 0);
        // The temporary root is no longer needed; the parent keeps the
        // node alive from here on.
        heap.set_root(root, 0);
        p as u64
    }
    let mut heap = init();
    let node = heap.register_rtti(rtti_with_refs(32, vec![0, 1]));
    let long_lived = make_tree(&mut heap, node, 12) as usize;
    let root = heap.add_root(long_lived);
    let mut d = 4u32;
    while d <= 10 {
        let count = 2 * tree_size(12) / tree_size(d);
        for _ in 0..count {
            make_tree(&mut heap, node, d);
        }
        d += 2;
    }
    // Force one evacuating cycle at the end.
    let none: Vec<usize> = Vec::new();
    heap.collect_internal(true, true, &none);
    assert!(heap.evac_collections >= 1);
    // Walk the leftmost spine of the long-lived tree: its leaf value is
    // still zero.
    let mut p = heap.root(root);
    let mut steps = 0;
    loop {
        let l = heap.read_word(p, 0).unwrap();
        if l == 0 {
            break;
        }
        p = l as usize;
        steps += 1;
        assert!(steps <= 12);
    }
    assert_eq!(heap.read_word(p, 2), Some(0));
}

// A heap clamped to its floor eventually reports exhaustion by returning
// null, once live data fills every block.
#[test]
fn exhaustion_returns_null() {
    // Sixteen blocks in all.
    let mut heap = immix_init(1024, 0);
    assert_eq!(heap.threshold, 100 * 1024);
    // Disable threshold-triggered cycles so the space truly fills.
    heap.threshold = usize::MAX;
    let r2048 = heap.register_rtti(rtti_plain(2048));
    let mut saw_null = false;
    for _ in 0..400 {
        let p = immix_alloc(&mut heap, 2048, r2048);
        if p == 0 {
            saw_null = true;
            break;
        }
        heap.add_root(p);
    }
    assert!(saw_null);
}

// The documented initialization defaults.
#[test]
fn init_defaults() {
    let tiny = immix_init(0, 0);
    assert_eq!(tiny.threshold, 100 * 1024);
    // A heap below the floor falls back to sixteen blocks.
    assert_eq!(tiny.immix.block_allocator.total_blocks(), 16);
    let sized = immix_init(10 * 1024 * 1024, 0);
    assert_eq!(sized.threshold, 3 * 10 * 1024 * 1024 / 10);
    assert_eq!(sized.immix.block_allocator.total_blocks(), 10 * 1024 * 1024 / BLOCK_SIZE);
    let explicit = immix_init(10 * 1024 * 1024, 12345);
    assert_eq!(explicit.threshold, 12345);
}

// The allocated-byte counter grows by the requested size rounded to
// sixteen bytes and resets to the visited total at a cycle.
#[test]
fn allocated_counter() {
    let mut heap = init();
    let box8 = heap.register_rtti(rtti_plain(8));
    let box16 = heap.register_rtti(rtti_plain(16));
    let box17 = heap.register_rtti(rtti_plain(17));
    let before = heap.allocated;
    assert!(immix_alloc(&mut heap, 8, box8) != 0);
    assert_eq!(heap.allocated, before + 16);
    assert!(immix_alloc(&mut heap, 16, box16) != 0);
    assert_eq!(heap.allocated, before + 32);
    assert!(immix_alloc(&mut heap, 17, box17) != 0);
    assert_eq!(heap.allocated, before + 64);
    let (visited, _) = immix_collect(&mut heap, false);
    assert_eq!(heap.allocated, visited);
    // With no roots nothing was visited.
    assert_eq!(visited, 0);
}

#[test]
fn gc_state_restore_signals_yieldpoint() {
    let mut tls = immixcons::threading::TLSState::new();
    // Entering a stopped state never asks for a yieldpoint.
    let (prev, must_yield) = tls.gc_state_set(2, 0);
    assert_eq!(prev, 0);
    assert!(!must_yield);
    // Returning from a stopped state to running passes through one.
    let (prev, must_yield) = tls.gc_state_set(0, 2);
    assert_eq!(prev, 2);
    assert!(must_yield);
    // Staying in the running state does not.
    let (_, must_yield) = tls.gc_state_set(0, 0);
    assert!(!must_yield);
}

// A scan past the last usable pair of clear lines finds nothing: lines
// marked so that no two consecutive clear lines remain before the block's
// last two lines refuse every hole request.
#[test]
fn hole_scan_exhausted_block() {
    let mut blk = ImmixBlock::new(BLOCK_SIZE);
    // Mark every other line: no hole of two consecutive clear lines is
    // left anywhere, so scanning from the start yields nothing usable.
    let mut l = 2;
    while l < NUM_LINES_PER_BLOCK {
        blk.line_object_mark(Address::from(BLOCK_SIZE + l * LINE_SIZE), 1);
        l += 2;
    }
    assert_eq!(blk.scan_block(0), None);
}

// A word index past an object's payload is refused by both accessors, and
// the refused write leaves the stored words as they were.
#[test]
fn word_access_out_of_bounds_refused() {
    let mut heap = init();
    let small = heap.register_rtti(rtti_plain(16));
    let p = immix_alloc(&mut heap, 16, small);
    assert!(p != 0);
    assert!(heap.write_word(p, 0, 7));
    assert_eq!(heap.read_word(p, usize::MAX / 8), None);
    assert!(!heap.write_word(p, usize::MAX / 8, 9));
    assert_eq!(heap.read_word(p, 0), Some(7));
    // An address outside both spaces is refused outright.
    assert_eq!(heap.read_word(3, 0), None);
    assert!(!heap.write_word(3, 0, 9));
}
