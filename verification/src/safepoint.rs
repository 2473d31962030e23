//! The stop-the-world protocol, as a state machine.
//!
//! One coordinator at a time wins the `gc_running` flag and protects the
//! safepoint page; every other mutator observes the flag at its next
//! yieldpoint and waits.  The host runtime performs the real page
//! protection and the spinning; the decisions live here.

use vstd::prelude::*;

verus! {

/// The process-wide safepoint state.
pub struct SafepointState {
    /// Whether a collection is running.
    pub gc_running: bool,
    /// Whether the safepoint page traps readers.
    pub page_protected: bool,
    /// Address of the safepoint page.
    pub page: usize,
}

impl SafepointState {
    /// Installs the safepoint page at `page`; no collection runs yet.
    pub fn safepoint_init(page: usize) -> (r: SafepointState)
        ensures
            !r.gc_running,
            !r.page_protected,
            r.page == page,
    {
        SafepointState { gc_running: false, page_protected: false, page }
    }

    /// One initiator tries to start a collection.  It wins exactly when no
    /// collection is running; the loser must wait for the running cycle
    /// instead and start none of its own.
    pub fn safepoint_start_gc(&mut self) -> (won: bool)
        ensures
            won == !old(self).gc_running,
            final (self).gc_running,
            final (self).page == old(self).page,
            won ==> final (self).page_protected,
            !won ==> final (self).page_protected == old(self).page_protected,
    {
        if self.gc_running {
            return false;
        }
        self.gc_running = true;
        self.page_protected = true;
        true
    }

    /// Ends the cycle: the page stops trapping and the flag drops, so
    /// waiting mutators resume.
    pub fn safepoint_end_gc(&mut self)
        ensures
            !final (self).gc_running,
            !final (self).page_protected,
            final (self).page == old(self).page,
    {
        self.page_protected = false;
        self.gc_running = false;
    }

    /// What a waiting mutator checks each spin: it may resume exactly when
    /// no collection runs any more.
    pub fn safepoint_wait_gc(&self) -> (resume: bool)
        ensures
            resume == !self.gc_running,
    {
        !self.gc_running
    }

    /// Whether a faulting access at `addr` was a safepoint poll, and so a
    /// request to stop, rather than a real fault.
    pub fn addr_in_safepoint(&self, addr: usize) -> (r: bool)
        ensures
            r == (addr == self.page),
    {
        addr == self.page
    }

    /// Whether the collector may scan a thread whose state is `gc_state`:
    /// a thread that is waiting or in a safe region is already stopped; a
    /// running thread must reach a yieldpoint first.
    pub fn thread_stopped(&self, gc_state: i8) -> (r: bool)
        ensures
            r == (gc_state != 0),
    {
        gc_state != 0
    }
}

} // verus!
