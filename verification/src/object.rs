//! Object headers and type descriptors.
//!
//! Every heap object is preceded by a single tagged header word (`RawGc`).
//! Bit 0 is the mark bit, bit 1 the forwarded bit (the word then holds the
//! forwarding address), bit 2 the pin bit; the remaining bits hold the
//! 8-byte-aligned encoding of the object's type descriptor.

use vstd::prelude::*;

use crate::util::TaggedPointer;
use crate::util::lemma_set_bit_x;
use crate::util::lemma_set_forwarded_word;
use crate::util::lemma_untagged;
use crate::util::lemma_with_bit;
use crate::util::lemma_without_bit;
use crate::util::spec_untagged;

verus! {

/// Size in bytes of an object header.
pub const HEADER_SIZE: usize = 8;

/// A type descriptor: the per-type record the collector consults for an
/// object's size, its reference slots, and its finalization behaviour.
pub struct GCRTTI {
    /// Payload size in bytes of an object of this type.
    pub heap_size: usize,
    /// Indices of the payload words that hold references to other objects.
    pub ref_slots: Vec<u32>,
    /// Whether objects of this type are queued for finalization.
    pub needs_finalization: bool,
    /// Whether a finalizer runs when an object of this type dies.
    pub finalizer: bool,
}

impl GCRTTI {
    /// The payload size is bounded and every reference slot names a payload
    /// word.
    pub open spec fn wf(&self) -> bool {
        &&& self.heap_size + HEADER_SIZE + 16 <= usize::MAX
        &&& forall|i: int|
            0 <= i < self.ref_slots@.len() ==> (self.ref_slots@[i] as int) * 8 + 8
                <= self.heap_size
    }
}

/// The bytes an object with payload size `heap_size` occupies on the heap:
/// header plus payload, rounded up to 16 bytes.
pub open spec fn spec_object_size(heap_size: int) -> int {
    ((heap_size + HEADER_SIZE + 15) / 16) * 16
}

/// The header word that encodes type descriptor number `index`.
pub open spec fn spec_vtable_for_index(index: int) -> int {
    (index + 1) * 8
}

/// Encodes a type descriptor number as a header vtable word: nonzero and
/// 8-byte aligned, so the three tag bits stay free.
pub fn vtable_for_index(index: usize) -> (r: usize)
    requires
        (index + 1) * 8 <= usize::MAX,
    ensures
        r == spec_vtable_for_index(index as int),
        r % 8 == 0,
        r != 0,
{
    (index + 1) * 8
}

/// Decodes a vtable word back to its type descriptor number.
pub fn index_for_vtable(vtable: usize) -> (r: usize)
    requires
        vtable % 8 == 0,
        vtable >= 8,
    ensures
        r == (vtable / 8 - 1),
        spec_vtable_for_index(r as int) == vtable,
{
    vtable / 8 - 1
}

/// The tagged header word preceding every heap object.
#[derive(Clone, Copy)]
pub struct RawGc {
    /// The tagged descriptor word.
    pub vtable: TaggedPointer,
}

impl RawGc {
    /// The mark bit.
    pub open spec fn spec_mark(&self) -> bool {
        self.vtable.spec_bit(0)
    }

    /// The forwarded bit.
    pub open spec fn spec_forwarded(&self) -> bool {
        self.vtable.spec_bit(1)
    }

    /// The pin bit.
    pub open spec fn spec_pinned(&self) -> bool {
        self.vtable.spec_bit(2)
    }

    /// The untagged descriptor word: the encoded type descriptor of a live
    /// header, or the forwarding address of a forwarded one.
    pub open spec fn spec_vtable(&self) -> u64 {
        self.vtable.spec_untagged()
    }

    /// A live header: not forwarded, with a nonzero descriptor word.
    pub open spec fn wf(&self) -> bool {
        self.spec_vtable() != 0
    }

    /// Builds the header for descriptor word `vtable`, with all tag bits
    /// clear.
    pub fn new(vtable: usize) -> (r: Self)
        ensures
            r.vtable.raw == vtable as u64,
            vtable % 8 == 0 ==> r.spec_vtable() == vtable && !r.spec_mark() && !r.spec_forwarded()
                && !r.spec_pinned(),
    {
        proof {
            lemma_untagged(vtable as u64, 0);
            lemma_untagged(vtable as u64, 1);
            lemma_untagged(vtable as u64, 2);
        }
        Self { vtable: TaggedPointer::new(vtable as u64) }
    }

    /// Sets the mark bit to `mark` and reports whether it already had that
    /// value.  The other tag bits and the descriptor word are unchanged.
    pub fn mark(&mut self, mark: bool) -> (r: bool)
        requires
            old(self).wf(),
        ensures
            final (self).spec_mark() == mark,
            final (self).spec_forwarded() == old(self).spec_forwarded(),
            final (self).spec_pinned() == old(self).spec_pinned(),
            final (self).spec_vtable() == old(self).spec_vtable(),
            final (self).wf(),
            r == (old(self).spec_mark() == mark),
    {
        let prev = self.vtable.bit_is_set(0);
        proof {
            lemma_set_bit_x(self.vtable.raw, mark, 0, 1);
            lemma_set_bit_x(self.vtable.raw, mark, 0, 2);
        }
        self.vtable.set_bit_x(mark, 0);
        prev == mark
    }

    /// Reads the mark bit.
    pub fn get_mark(&self) -> (r: bool)
        requires
            self.wf(),
        ensures
            r == self.spec_mark(),
    {
        self.vtable.bit_is_set(0)
    }

    /// Sets the pin bit.
    pub fn pin(&mut self)
        requires
            old(self).wf(),
        ensures
            final (self).spec_pinned(),
            final (self).spec_mark() == old(self).spec_mark(),
            final (self).spec_forwarded() == old(self).spec_forwarded(),
            final (self).spec_vtable() == old(self).spec_vtable(),
            final (self).wf(),
    {
        proof {
            lemma_with_bit(self.vtable.raw, 2, 0);
            lemma_with_bit(self.vtable.raw, 2, 1);
        }
        self.vtable.set_bit(2);
    }

    /// Reads the pin bit.
    pub fn is_pinned(&self) -> (r: bool)
        requires
            self.wf(),
        ensures
            r == self.spec_pinned(),
    {
        self.vtable.bit_is_set(2)
    }

    /// Clears the pin bit.
    pub fn unpin(&mut self)
        requires
            old(self).wf(),
        ensures
            !final (self).spec_pinned(),
            final (self).spec_mark() == old(self).spec_mark(),
            final (self).spec_forwarded() == old(self).spec_forwarded(),
            final (self).spec_vtable() == old(self).spec_vtable(),
            final (self).wf(),
    {
        proof {
            lemma_without_bit(self.vtable.raw, 2, 0);
            lemma_without_bit(self.vtable.raw, 2, 1);
        }
        self.vtable.clear_bit(2);
    }

    /// Reads the forwarded bit.
    pub fn is_forwarded(&self) -> (r: bool)
        ensures
            r == self.spec_forwarded(),
    {
        self.vtable.bit_is_set(1)
    }

    /// Replaces the descriptor word with the 16-byte-aligned forwarding
    /// address `addr` and sets the forwarded bit.
    pub fn set_forwarded(&mut self, addr: usize)
        requires
            old(self).wf(),
            addr % 16 == 0,
            addr != 0,
        ensures
            final (self).spec_forwarded(),
            final (self).spec_vtable() == addr,
            !final (self).spec_mark(),
            !final (self).spec_pinned(),
            final (self).wf(),
    {
        proof {
            lemma_set_forwarded_word(addr as u64);
        }
        self.vtable = TaggedPointer::new(addr as u64);
        self.vtable.set_bit(1);
    }

    /// Reads the untagged descriptor word.
    pub fn vtable(&self) -> (r: usize)
        requires
            self.spec_vtable() <= usize::MAX,
        ensures
            r == self.spec_vtable(),
    {
        self.vtable.untagged() as usize
    }

    /// The heap footprint of an object whose header this is, given its type
    /// descriptor: header plus payload, rounded up to 16 bytes.
    pub fn object_size(&self, rtti: &GCRTTI) -> (r: usize)
        requires
            rtti.wf(),
        ensures
            r == spec_object_size(rtti.heap_size as int),
            r >= 16,
            r % 16 == 0,
            r >= rtti.heap_size + HEADER_SIZE,
    {
        let r = crate::align_usize(rtti.heap_size + HEADER_SIZE, 16);
        proof {
            let s = rtti.heap_size as int;
            assert(r == ((s + 8 + 15) / 16) * 16);
            assert(r >= 16 && r % 16 == 0 && r >= s + 8) by (nonlinear_arith)
                requires
                    r == ((s + 8 + 15) / 16) * 16,
                    s >= 0,
            ;
        }
        r
    }
}

} // verus!
