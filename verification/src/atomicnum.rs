//! A 64-bit counter that threads may read and update without a lock.

use vstd::prelude::*;
use std::sync::atomic::AtomicU64;
use std::sync::atomic::Ordering;

verus! {

/// An unsigned 64-bit atomic number.
///
/// The number is shared state: any thread that holds a reference may change
/// it between two calls, so no call promises anything about the value it
/// returns beyond its type.
pub struct AtomicNum {
    v: AtomicU64,
    start: Ghost<u64>,
}

impl AtomicNum {
    /// The value that the number was created with. It is what the first load
    /// returns unless something was stored before.
    pub closed spec fn initial(&self) -> u64 {
        self.start@
    }

    /// Creates a number that starts at `v`.
    pub fn new(v: u64) -> (r: AtomicNum)
        ensures
            r.initial() == v,
    {
        AtomicNum { v: AtomicU64::new(v), start: Ghost(v) }
    }

    /// Loads the value. An ordering that a load cannot have is taken as
    /// sequentially consistent.
    #[inline]
    pub fn load(&self, order: Ordering) -> (r: u64) {
        match order {
            Ordering::Acquire => self.v.load(Ordering::Acquire),
            Ordering::Relaxed => self.v.load(Ordering::Relaxed),
            _ => self.v.load(Ordering::SeqCst),
        }
    }

    /// Stores `val`. An ordering that a store cannot have is taken as
    /// sequentially consistent.
    #[inline]
    pub fn store(&self, val: u64, order: Ordering) {
        match order {
            Ordering::Release => self.v.store(val, Ordering::Release),
            Ordering::Relaxed => self.v.store(val, Ordering::Relaxed),
            _ => self.v.store(val, Ordering::SeqCst),
        }
    }

    /// Stores `val` and returns the value it replaced.
    #[inline]
    pub fn swap(&self, val: u64, order: Ordering) -> (r: u64) {
        self.v.swap(val, order)
    }

    /// Stores `new` if the value is `old`, and returns the value found; the
    /// store took place exactly when that value is `old`.
    #[inline]
    pub fn compare_and_swap(&self, old: u64, new: u64, order: Ordering) -> (r: u64) {
        let outcome = match order {
            Ordering::Acquire => self.v.compare_exchange(
                old,
                new,
                Ordering::Acquire,
                Ordering::Acquire,
            ),
            Ordering::Release => self.v.compare_exchange(
                old,
                new,
                Ordering::Release,
                Ordering::Relaxed,
            ),
            Ordering::AcqRel => self.v.compare_exchange(
                old,
                new,
                Ordering::AcqRel,
                Ordering::Acquire,
            ),
            Ordering::Relaxed => self.v.compare_exchange(
                old,
                new,
                Ordering::Relaxed,
                Ordering::Relaxed,
            ),
            _ => self.v.compare_exchange(old, new, Ordering::SeqCst, Ordering::SeqCst),
        };
        match outcome {
            Ok(found) => found,
            Err(found) => found,
        }
    }

    /// Adds `val`, wrapping around on overflow, and returns the value before.
    #[inline]
    pub fn fetch_add(&self, val: u64, order: Ordering) -> (r: u64) {
        self.v.fetch_add(val, order)
    }

    /// Subtracts `val`, wrapping around on overflow, and returns the value
    /// before.
    #[inline]
    pub fn fetch_sub(&self, val: u64, order: Ordering) -> (r: u64) {
        self.v.fetch_sub(val, order)
    }

    /// Replaces the value by its bitwise and with `val` and returns the value
    /// before.
    #[inline]
    pub fn fetch_and(&self, val: u64, order: Ordering) -> (r: u64) {
        self.v.fetch_and(val, order)
    }

    /// Replaces the value by its bitwise or with `val` and returns the value
    /// before.
    #[inline]
    pub fn fetch_or(&self, val: u64, order: Ordering) -> (r: u64) {
        self.v.fetch_or(val, order)
    }

    /// Replaces the value by its bitwise exclusive or with `val` and returns
    /// the value before.
    #[inline]
    pub fn fetch_xor(&self, val: u64, order: Ordering) -> (r: u64) {
        self.v.fetch_xor(val, order)
    }
}

} // verus!
