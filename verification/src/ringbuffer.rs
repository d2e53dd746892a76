//! The ring of slots, and what the lock around a shared ring promises.
//!
//! A `RingBuffer` by itself belongs to one owner. To share it, the coordinator
//! puts it behind a reader-writer lock: whoever writes a slot has the ring to
//! itself, and whoever reads slots may count on them while it does.

use vstd::prelude::*;
use vstd::rwlock::RwLockPredicate;
use vstd::slice::slice_subrange;
use crate::sequence::lemma_single_bit;
use crate::sequence::valid_capacity;

verus! {

/// A record that can sit in a slot of the ring.
///
/// The ring is filled with values made by `new` when it is allocated, so the
/// memory it takes is its capacity times the size of a record. Records pass
/// from the producer's thread to the consumers' threads, hence `Send`.
pub trait Slot: Send + Sized {
    /// Makes the record that a slot holds before anything is written to it.
    fn new() -> Self;
}

/// A fixed number of slots, a power of two, allocated at once.
///
/// The ring knows nothing of sequence numbers or cursors. It offers two
/// operations on slot numbers, `write` and `get`, and leaves it to its users
/// to keep the producer off the slots that a consumer still reads.
pub struct RingBuffer<T> {
    entries: Vec<T>,
}

impl<T> View for RingBuffer<T> {
    type V = Seq<T>;

    closed spec fn view(&self) -> Seq<T> {
        self.entries@
    }
}

impl<T> RingBuffer<T> {
    /// The number of slots.
    pub fn get_capacity(&self) -> (capacity: usize)
        ensures
            capacity == self@.len(),
    {
        self.entries.len()
    }

    /// Borrows the slots `from..to`.
    pub fn get(&self, from: usize, to: usize) -> (slots: &[T])
        requires
            from <= to <= self@.len(),
        ensures
            slots@ == self@.subrange(from as int, to as int),
    {
        slice_subrange(self.entries.as_slice(), from, to)
    }

    /// Overwrites the slot at `position` with `data`.
    pub fn write(&mut self, position: usize, data: T)
        requires
            position < old(self)@.len(),
        ensures
            final(self)@ == old(self)@.update(position as int, data),
    {
        self.entries.set(position, data);
    }
}

impl<T: Slot> RingBuffer<T> {
    /// Allocates a ring of `size` slots, each holding a fresh record.
    pub fn new(size: usize) -> (ring: RingBuffer<T>)
        requires
            valid_capacity(size as int),
        ensures
            ring@.len() == size,
            forall|i: int| 0 <= i < size ==> call_ensures(T::new, (), #[trigger] ring@[i]),
    {
        let mut entries: Vec<T> = Vec::with_capacity(size);
        let mut filled: usize = 0;
        while filled < size
            invariant
                filled <= size,
                entries@.len() == filled,
                forall|i: int| 0 <= i < filled ==> call_ensures(T::new, (), #[trigger] entries@[i]),
            decreases size - filled,
        {
            entries.push(T::new());
            filled = filled + 1;
        }
        RingBuffer { entries }
    }
}

/// Tells whether `x` is a power of two, and so whether a ring may have `x`
/// slots.
pub fn is_pow2(x: usize) -> (b: bool)
    ensures
        b == valid_capacity(x as int),
{
    let v = x as u64;
    proof {
        lemma_single_bit(v);
    }
    v != 0 && v & (v - 1) == 0
}

/// What the lock around a shared ring promises of the ring inside: its
/// capacity never changes.
pub struct HasCapacity {
    /// The capacity of the ring behind the lock.
    pub capacity: usize,
}

impl<T> RwLockPredicate<RingBuffer<T>> for HasCapacity {
    open spec fn inv(self, ring: RingBuffer<T>) -> bool {
        ring@.len() == self.capacity
    }
}

} // verus!
