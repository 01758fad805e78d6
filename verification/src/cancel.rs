//! The shared cancellation flag.
//!
//! A single boolean owned by the run controller and observed by the engine at
//! every iteration boundary. The flag is advisory: setting it never preempts
//! the engine, which terminates at its next checkpoint. Nothing is assumed
//! about the value a read returns, since another thread may store to the flag
//! at any time.

use vstd::prelude::*;

use std::sync::atomic::AtomicBool;
use std::sync::atomic::Ordering;
use std::sync::Arc;

verus! {

/// A handle on the cancellation flag of one run. Clones share the flag.
#[derive(Clone)]
pub struct CancelFlag {
    inner: Arc<AtomicBool>,
}

impl CancelFlag {
    /// A fresh flag, initially unset.
    pub fn new() -> CancelFlag {
        CancelFlag { inner: Arc::new(AtomicBool::new(false)) }
    }

    /// Requests cancellation (`true`) or resets the flag (`false`).
    pub fn store(&self, value: bool) {
        self.inner.store(value, Ordering::SeqCst);
    }

    /// Observes the flag. The result is whatever was last stored, by this
    /// handle or by a clone of it on another thread.
    pub fn is_set(&self) -> bool {
        self.inner.load(Ordering::SeqCst)
    }
}

} // verus!
