//! Cursors that never share a cache line.

use vstd::prelude::*;
use std::sync::atomic::Ordering;
use crate::atomicnum::AtomicNum;

verus! {

/// A sequence counter on a cache line of its own.
///
/// The counter lies between two runs of padding that make the value 128 bytes
/// long. In a vector of cursors two counters are therefore 128 bytes apart,
/// and a write to one never invalidates the line that holds another.
///
/// A cursor has one writer, the thread that owns it, and any number of readers.
/// As the counter is shared, what a read returns is whatever the writer stored
/// last, which no contract here can name.
pub struct Padded64 {
    #[allow(dead_code)]
    lead: [u64; 8],
    counter: AtomicNum,
    #[allow(dead_code)]
    trail: [u64; 7],
}

impl Padded64 {
    /// The sequence number that the cursor was created at.
    pub closed spec fn initial(&self) -> u64 {
        self.counter.initial()
    }

    /// Creates a cursor that starts at `x`.
    pub fn new(x: u64) -> (r: Padded64)
        ensures
            r.initial() == x,
    {
        Padded64 { lead: [0u64; 8], counter: AtomicNum::new(x), trail: [0u64; 7] }
    }

    /// Adds `x` to the counter and returns the value before.
    #[inline]
    pub fn add(&self, x: u64) -> (r: u64) {
        self.counter.fetch_add(x, Ordering::SeqCst)
    }

    /// Reads the counter. Whatever the writer did before it stored the value
    /// read is visible to the caller afterwards.
    #[inline]
    pub fn load(&self) -> (r: u64) {
        self.counter.load(Ordering::Acquire)
    }

    /// Publishes `x`. Whatever the caller did before is visible to a thread
    /// that reads `x` from this cursor.
    #[inline]
    pub fn store(&self, x: u64) {
        self.counter.store(x, Ordering::Release);
    }

    /// Puts the counter back to zero.
    #[inline]
    pub fn reset(&self) {
        self.store(0);
    }

    /// Replaces the counter by its bitwise or with `x` and returns the value
    /// before.
    #[inline]
    pub fn or(&self, x: u64) -> (r: u64) {
        self.counter.fetch_or(x, Ordering::SeqCst)
    }

    /// Replaces the counter by its bitwise and with `x` and returns the value
    /// before.
    #[inline]
    pub fn and(&self, x: u64) -> (r: u64) {
        self.counter.fetch_and(x, Ordering::SeqCst)
    }
}

} // verus!
