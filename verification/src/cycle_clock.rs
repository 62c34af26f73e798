//! The cycle clock a bus publishes to scheduler-driven peripherals.
//!
//! The clock is shared: the bus publishes the current CPU cycle and every
//! peripheral holding a clone reads it. Because another holder can publish at
//! any time, nothing is known of a read beyond its type.

use std::sync::atomic::AtomicU64;
use std::sync::atomic::Ordering;
use std::sync::Arc;
use vstd::prelude::*;

verus! {

/// A shared, published CPU-cycle counter.
#[derive(Debug, Clone)]
pub struct CycleClock {
    now: Arc<AtomicU64>,
}

impl CycleClock {
    /// A clock published at cycle zero.
    pub fn new() -> (r: Self) {
        CycleClock { now: Arc::new(AtomicU64::new(0)) }
    }

    /// The most recently published cycle.
    pub fn now(&self) -> u64 {
        self.now.load(Ordering::Relaxed)
    }

    /// Publish `cycle` to every holder of this clock.
    pub fn publish(&self, cycle: u64) {
        self.now.store(cycle, Ordering::Relaxed);
    }
}

impl Default for CycleClock {
    fn default() -> (r: Self) {
        Self::new()
    }
}

} // verus!
