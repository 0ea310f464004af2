//! The handle of a running evdev reader thread.
use vstd::prelude::*;
use std::sync::atomic::{AtomicBool, Ordering};
use std::sync::Arc;

verus! {

/// Handle to a running evdev reader thread. Dropping it clears the shared
/// flag that the thread checks between events, so the thread exits at its
/// next event loop iteration. Because reading is blocking, the thread may
/// linger until the device produces its next event.
pub struct DeviceReader {
    cancel: Arc<AtomicBool>,
}

impl DeviceReader {
    /// The flag that dropping this handle clears.
    pub closed spec fn flag(&self) -> Arc<AtomicBool> {
        self.cancel
    }

    /// A handle and the flag (set to `true`, "keep running") that the
    /// reader thread polls: the very flag the handle clears when dropped.
    /// The flag's value is shared with another thread, so no contract
    /// speaks of it.
    pub fn new_with_cancel() -> (r: (Self, Arc<AtomicBool>))
        ensures
            r.0.flag() == r.1,
    {
        let cancel = Arc::new(AtomicBool::new(true));
        (DeviceReader { cancel: share_flag(&cancel) }, cancel)
    }
}

/// `Arc::clone`: another pointer to the same allocation, so the same flag.
#[verifier::external_body]
fn share_flag(flag: &Arc<AtomicBool>) -> (r: Arc<AtomicBool>)
    ensures
        r == *flag,
{
    flag.clone()
}

impl Drop for DeviceReader {
    fn drop(&mut self)
        opens_invariants none
        no_unwind
    {
        clear_flag(&self.cancel);
    }
}

/// `AtomicBool::store(false, Ordering::Relaxed)`: an atomic store, which
/// neither panics nor opens an invariant.
#[verifier::external_body]
fn clear_flag(flag: &Arc<AtomicBool>)
    opens_invariants none
    no_unwind
{
    flag.store(false, Ordering::Relaxed);
}

} // verus!
