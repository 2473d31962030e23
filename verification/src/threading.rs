//! Per-thread mutator state.
//!
//! Each mutator carries a small state machine: `0` while running managed
//! code, `GC_STATE_WAITING` while stopped for a collection, and
//! `GC_STATE_SAFE` while running code the collector may proceed alongside.
//! The sequential model records the transitions; the host runtime drives
//! them from its threads and signal handlers.

use vstd::prelude::*;

use crate::allocation::BlockTuple;

verus! {

/// The thread is collecting, or waiting for the collector to finish.
pub const GC_STATE_WAITING: i8 = 1;

/// The thread runs code that may overlap a collection.
pub const GC_STATE_SAFE: i8 = 2;

/// The per-thread state the collector inspects.
pub struct TLSState {
    /// Address of the safepoint page this thread polls.
    pub safepoint: usize,
    /// The thread's place in the run/wait/safe state machine.
    pub gc_state: i8,
    /// Base of the thread's stack.
    pub stack_bottom: usize,
    /// Leaf frame recorded at the latest yieldpoint.
    pub stack_end: usize,
    /// The block the thread's small path holds.
    pub current_block: Option<BlockTuple>,
    /// The block the thread's medium path holds.
    pub current_ovf_block: Option<BlockTuple>,
}

impl TLSState {
    /// Fresh per-thread state: running, with no stack recorded and no
    /// block held.
    pub fn new() -> (r: TLSState)
        ensures
            r.gc_state == 0,
            r.safepoint == 0,
            r.stack_bottom == 0,
            r.stack_end == 0,
            r.current_block is None,
            r.current_ovf_block is None,
    {
        TLSState {
            safepoint: 0,
            gc_state: 0,
            stack_bottom: 0,
            stack_end: 0,
            current_block: None,
            current_ovf_block: None,
        }
    }

    /// A yieldpoint: records the leaf frame and reports whether the
    /// thread must stop because a collection is running.
    pub fn yieldpoint(&mut self, sp: usize, gc_running: bool) -> (wait: bool)
        ensures
            final (self).stack_end == sp,
            *final (self) == (TLSState { stack_end: sp, ..*old(self) }),
            wait == gc_running,
    {
        self.stack_end = sp;
        gc_running
    }

    /// Moves the thread to `state` and hands back `old_state` so the
    /// caller can restore it later, together with whether the host must
    /// now run a yieldpoint: returning a stopped thread to the running
    /// state always passes through one.
    pub fn gc_state_set(&mut self, state: i8, old_state: i8) -> (r: (i8, bool))
        ensures
            final (self).gc_state == state,
            *final (self) == (TLSState { gc_state: state, ..*old(self) }),
            r.0 == old_state,
            r.1 == (old_state != 0 && state == 0),
    {
        self.gc_state = state;
        (old_state, old_state != 0 && state == 0)
    }

    /// Moves the thread to `state`, returning the state it held.
    pub fn gc_state_save_and_set(&mut self, state: i8) -> (r: i8)
        ensures
            final (self).gc_state == state,
            *final (self) == (TLSState { gc_state: state, ..*old(self) }),
            r == old(self).gc_state,
    {
        let prev = self.gc_state;
        self.gc_state = state;
        prev
    }
}

} // verus!
