//! Cancelling a bake from another thread.

use crate::dispatch::GpuBakeError;
use std::sync::atomic::AtomicBool;
use std::sync::Arc;
use vstd::prelude::*;

verus! {

/// A switch that is shared by all its clones.  Once thrown it stays so.
pub struct BakeControl(Arc<AtomicBool>);

impl Default for BakeControl {
    fn default() -> BakeControl {
        BakeControl(Arc::new(AtomicBool::new(false)))
    }
}

impl Clone for BakeControl {
    /// Another handle to the same switch.
    fn clone(&self) -> (copy: BakeControl)
        ensures
            copy == *self,
    {
        BakeControl(self.0.clone())
    }
}

impl BakeControl {
    /// Throws the switch.  What another thread reads of it, and when, is left
    /// to the memory model, so nothing is stated of the effect.
    pub fn cancel(&self) {
        self.0.store(true, std::sync::atomic::Ordering::Relaxed);
    }

    /// Reads the switch.  The answer depends on the other threads, so nothing
    /// is stated of it.
    pub fn is_cancelled(&self) -> (cancelled: bool) {
        self.0.load(std::sync::atomic::Ordering::Relaxed)
    }

    /// Fails where the switch is thrown, always with the same error.
    pub fn check(&self) -> (result: Result<(), GpuBakeError>)
        ensures
            result matches Err(error) ==> error == GpuBakeError::Cancelled,
    {
        check_flag(self.is_cancelled())
    }
}

/// Fails exactly where a bake is cancelled.
pub fn check_flag(cancelled: bool) -> (result: Result<(), GpuBakeError>)
    ensures
        result == if cancelled {
            Err::<(), GpuBakeError>(GpuBakeError::Cancelled)
        } else {
            Ok(())
        },
{
    if cancelled {
        Err(GpuBakeError::Cancelled)
    } else {
        Ok(())
    }
}

} // verus!
