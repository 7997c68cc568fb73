//! A test-and-set lock word shared between CPUs.
//!
//! Whether an acquire succeeds depends on what other CPUs do to the word, so
//! nothing is promised of `try_lock`'s answer; the spinning `lock` lives with
//! the caller, outside the verified crate.
use vstd::prelude::*;
use core::sync::atomic::{AtomicU32, Ordering};

verus! {

pub struct SpinLock {
    locked: AtomicU32,
}

impl SpinLock {
    /// An unlocked lock.
    pub fn new() -> (r: Self) {
        SpinLock { locked: AtomicU32::new(0) }
    }

    /// Releases the lock.
    pub fn unlock(&self) {
        self.locked.store(0, Ordering::Release);
    }

    /// One attempt to take the lock (swap 0 for 1); `true` when it was taken.
    pub fn try_lock(&self) -> (r: bool) {
        self.locked.compare_exchange(0, 1, Ordering::Acquire, Ordering::Relaxed).is_ok()
    }
}

} // verus!
