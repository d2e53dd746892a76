//! How a consumer finds out that there is something to read.

use vstd::prelude::*;
use crate::paddedatomics::Padded64;
use crate::sequence::available;
use crate::sequence::least_observed;
use crate::sequence::min_cursor;
use crate::sequence::readable;

verus! {

/// A way of waiting for the cursors that a consumer trails.
///
/// A strategy is made for a ring of a given size and asked, time and again,
/// how far its consumer may read. How it spends the time in between (spinning,
/// yielding, sleeping) is its own business.
pub trait WaitStrategy: Sized {
    /// The size of the ring that the strategy was made for.
    spec fn ring_size(&self) -> usize;

    /// Makes a strategy for a ring of `ring_size` slots.
    fn new(ring_size: usize) -> (strategy: Self)
        ensures
            strategy.ring_size() == ring_size,
    ;

    /// The size of the ring that the strategy was made for.
    fn get_ring_size(&self) -> (size: usize)
        ensures
            size == self.ring_size(),
    ;

    /// Waits for something beyond `sequence` and reports how far the consumer
    /// may read: up to, and not including, the least of the cursors in `ep`.
    /// `None` says that the strategy has stopped waiting for now, and that
    /// the consumer stays where it is.
    fn wait_for(&self, sequence: u64, ep: &Vec<&Padded64>) -> (reached: Option<u64>)
        ensures
            reached matches Some(m) ==> m > sequence && least_observed(m, ep@.len()),
    ;
}

/// The strategy that never sleeps: each call reads the cursors once and
/// answers at once, so a consumer that calls it in a loop spins on them. It
/// keeps latency lowest and a core busy.
pub struct BusyWait {
    ring_size: usize,
}

impl BusyWait {
    /// Reads every cursor in `deps` once and tells how far a consumer at
    /// `sequence` may read: up to the least of them, if that lies beyond
    /// `sequence`. Without cursors the least is `u64::MAX`.
    pub fn can_read(&self, sequence: u64, deps: &Vec<&Padded64>) -> (reached: Option<u64>)
        ensures
            exists|observed: Seq<u64>|
                observed.len() == deps@.len() && reached == available(
                    sequence,
                    min_cursor(observed),
                ),
    {
        let mut min_cursor: u64 = u64::MAX;
        let ghost mut observed: Seq<u64> = Seq::empty();
        let mut i: usize = 0;
        while i < deps.len()
            invariant
                i <= deps.len(),
                observed.len() == i,
                min_cursor == crate::sequence::min_cursor(observed),
            decreases deps.len() - i,
        {
            let cursor = deps[i].load();
            proof {
                assert(observed.push(cursor).drop_last() == observed);
                observed = observed.push(cursor);
            }
            if cursor < min_cursor {
                min_cursor = cursor;
            }
            i = i + 1;
        }
        readable(sequence, min_cursor)
    }
}

impl WaitStrategy for BusyWait {
    closed spec fn ring_size(&self) -> usize {
        self.ring_size
    }

    fn new(ring_size: usize) -> (strategy: BusyWait) {
        BusyWait { ring_size }
    }

    fn get_ring_size(&self) -> (size: usize) {
        self.ring_size
    }

    fn wait_for(&self, sequence: u64, deps: &Vec<&Padded64>) -> (reached: Option<u64>)
        ensures
            exists|observed: Seq<u64>|
                observed.len() == deps@.len() && reached == available(
                    sequence,
                    min_cursor(observed),
                ),
    {
        self.can_read(sequence, deps)
    }
}

} // verus!
