//! Stopping a running collector from another thread.
use vstd::prelude::*;
use std::sync::Arc;
use std::sync::atomic::AtomicBool;
use std::sync::atomic::Ordering;

verus! {

/// Handle to stop a running collector; it shares the collector's running flag.
pub struct StopHandle {
    pub running: Arc<AtomicBool>,
}

impl StopHandle {
    /// A handle on the given running flag.
    pub fn new(running: Arc<AtomicBool>) -> (h: StopHandle)
        ensures
            h.running == running,
    {
        StopHandle { running }
    }

    /// Clears the running flag; the collector's loop ends at its next check.
    pub fn stop(&self) {
        self.running.store(false, Ordering::SeqCst);
    }
}

} // verus!
