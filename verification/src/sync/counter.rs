use core::sync::atomic::AtomicUsize;
use core::sync::atomic::Ordering;
use vstd::prelude::*;

verus! {

/// A relaxed load. Other threads may change the counter at any time, so
/// nothing is known of what is read.
pub(crate) fn load(counter: &AtomicUsize) -> usize {
    counter.load(Ordering::Relaxed)
}

/// A relaxed store.
pub(crate) fn store(counter: &AtomicUsize, value: usize) {
    counter.store(value, Ordering::Relaxed)
}

/// A relaxed, wrapping increment by one; returns what the counter held.
pub(crate) fn increment(counter: &AtomicUsize) -> usize {
    counter.fetch_add(1, Ordering::Relaxed)
}

/// A relaxed, wrapping decrement by one; returns what the counter held.
pub(crate) fn decrement(counter: &AtomicUsize) -> usize {
    counter.fetch_sub(1, Ordering::Relaxed)
}

} // verus!
