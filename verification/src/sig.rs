use std::sync::atomic::{AtomicBool, Ordering};
use vstd::prelude::*;

verus! {

/// Whether Ctrl+C or a termination request has arrived since the last call;
/// clears the flag.
///
/// The flag is set from a signal handler at any moment, so what it holds is
/// not modelled: the result is whatever the flag held when it was swapped.
pub fn check(hit: &AtomicBool) -> bool {
    hit.swap(false, Ordering::Relaxed)
}

/// Notes that Ctrl+C or a termination request arrived. Async-signal-safe: a
/// single atomic store.
pub fn record(hit: &AtomicBool) {
    hit.store(true, Ordering::Relaxed);
}

} // verus!
