//! Sequence arithmetic: how publication counters map onto ring slots, when the
//! producer may claim the next slot, when a consumer may move on, and which
//! slices of the ring make up one batch.
//!
//! Everything here works on plain numbers. The values that come out of the
//! shared cursors are handed in as arguments, so each decision is a function of
//! what was observed and nothing else.

use vstd::prelude::*;
use vstd::arithmetic::div_mod::lemma_fundamental_div_mod;
use vstd::arithmetic::div_mod::lemma_fundamental_div_mod_converse;
use vstd::arithmetic::div_mod::lemma_mod_bound;
use vstd::arithmetic::power::pow;
use vstd::arithmetic::power2::is_pow2;
use vstd::arithmetic::power2::is_pow2_equiv;
use vstd::arithmetic::power2::is_pow2_exists;
use vstd::arithmetic::power2::lemma2_to64;
use vstd::arithmetic::power2::lemma_pow2_pos;
use vstd::arithmetic::power2::lemma_pow2_strictly_increases;
use vstd::arithmetic::power2::pow2;
use vstd::bits::lemma_u64_low_bits_mask_is_mod;
use vstd::bits::low_bits_mask;

verus! {

/// A ring may hold `capacity` slots when `capacity` is a power of two. One is
/// the smallest such capacity; zero is none.
pub open spec fn valid_capacity(capacity: int) -> bool {
    is_pow2(capacity)
}

/// The slot that a sequence number falls into.
pub open spec fn slot_of(sequence: int, capacity: int) -> int {
    sequence % capacity
}

/// The least of the observed cursor values, and `u64::MAX` when nothing was
/// observed.
pub open spec fn min_cursor(observed: Seq<u64>) -> u64
    decreases observed.len(),
{
    if observed.len() == 0 {
        u64::MAX
    } else {
        least(min_cursor(observed.drop_last()), observed.last())
    }
}

/// `value` is the least of `count` cursor values that were read one after the
/// other. Nothing else can be said of a value computed from shared cursors:
/// what each read returns is up to the threads that own them.
pub open spec fn least_observed(value: u64, count: nat) -> bool {
    exists|observed: Seq<u64>| observed.len() == count && value == min_cursor(observed)
}

/// The smaller of two cursor values.
pub open spec fn least(a: u64, b: u64) -> u64 {
    if b < a {
        b
    } else {
        a
    }
}

/// `min_cursor` is a lower bound of everything observed, and it is one of the
/// observed values unless there are none.
pub proof fn lemma_min_cursor_bounds(observed: Seq<u64>)
    ensures
        forall|i: int| 0 <= i < observed.len() ==> min_cursor(observed) <= (#[trigger] observed[i]),
        observed.len() > 0 ==> (exists|i: int|
            0 <= i < observed.len() && (#[trigger] observed[i]) == min_cursor(observed)),
        observed.len() == 0 ==> min_cursor(observed) == u64::MAX,
    decreases observed.len(),
{
    if observed.len() > 0 {
        let front = observed.drop_last();
        lemma_min_cursor_bounds(front);
        assert forall|i: int| 0 <= i < observed.len() implies min_cursor(observed) <= (
        #[trigger] observed[i]) by {
            if i < front.len() {
                assert(front[i] == observed[i]);
            }
        }
        if observed.last() < min_cursor(front) || front.len() == 0 {
            assert(observed[observed.len() - 1] == min_cursor(observed));
        } else {
            let i = choose|i: int| 0 <= i < front.len() && (#[trigger] front[i]) == min_cursor(front);
            assert(observed[i] == min_cursor(observed));
        }
    }
}

/// A number is a power of two exactly when it is not zero and shares no bit
/// with its predecessor.
pub proof fn lemma_single_bit(v: u64)
    ensures
        (v != 0 && v & ((v - 1) as u64) == 0) == valid_capacity(v as int),
    decreases v,
{
    reveal(is_pow2);
    if v == 1 {
        assert(1u64 & 0u64 == 0u64) by (bit_vector);
    } else if v > 1 {
        let half = v / 2;
        lemma_single_bit(half);
        assert((v & ((v - 1) as u64) == 0) == (v % 2 == 0 && (v / 2) & ((v / 2 - 1) as u64) == 0))
            by (bit_vector)
            requires
                v > 1,
        ;
    }
}

/// Every power of two that fits a `usize` is `2^k` for some `k` below 64, and
/// masking with it less one is the remainder of dividing by it.
pub proof fn lemma_mask_is_mod(sequence: u64, capacity: usize)
    requires
        valid_capacity(capacity as int),
    ensures
        capacity >= 1,
        sequence & ((capacity - 1) as u64) == slot_of(sequence as int, capacity as int),
        0 <= slot_of(sequence as int, capacity as int) < capacity,
{
    is_pow2_equiv(capacity as int);
    assert(is_pow2_exists(capacity as int));
    let k = choose|k: nat| pow(2, k) == capacity as int;
    assert(pow2(k) == capacity);
    lemma_pow2_pos(k);
    lemma2_to64();
    if k >= 64 {
        if k > 64 {
            lemma_pow2_strictly_increases(64, k);
        }
        assert(false);
    }
    lemma_u64_low_bits_mask_is_mod(sequence, k);
    assert(low_bits_mask(k) == capacity - 1);
}

/// Where `cursor + step` falls when `cursor` falls into a known slot: one
/// step along the ring, back to slot zero past the last slot.
pub proof fn lemma_slot_step(cursor: int, step: int, capacity: int)
    requires
        capacity > 0,
        cursor >= 0,
        0 <= step <= capacity,
    ensures
        0 <= slot_of(cursor, capacity) < capacity,
        slot_of(cursor + step, capacity) == if slot_of(cursor, capacity) + step < capacity {
            slot_of(cursor, capacity) + step
        } else {
            slot_of(cursor, capacity) + step - capacity
        },
{
    let q = cursor / capacity;
    let r = cursor % capacity;
    lemma_fundamental_div_mod(cursor, capacity);
    lemma_mod_bound(cursor, capacity);
    if r + step < capacity {
        assert(cursor + step == q * capacity + (r + step)) by (nonlinear_arith)
            requires
                cursor == capacity * q + r,
        ;
        lemma_fundamental_div_mod_converse(cursor + step, capacity, q, r + step);
    } else {
        assert(cursor + step == (q + 1) * capacity + (r + step - capacity)) by (nonlinear_arith)
            requires
                cursor == capacity * q + r,
        ;
        lemma_fundamental_div_mod_converse(cursor + step, capacity, q + 1, r + step - capacity);
    }
}

/// Two sequence numbers less than a whole ring apart fall into different
/// slots.
pub proof fn lemma_slots_differ(low: int, high: int, capacity: int)
    requires
        capacity > 0,
        0 <= low < high < low + capacity,
    ensures
        slot_of(low, capacity) != slot_of(high, capacity),
{
    lemma_slot_step(low, high - low, capacity);
}

/// The outcome of one admission test by the producer.
#[derive(Clone, Copy, Debug, PartialEq, Eq, Structural)]
pub struct Admission {
    /// Whether the producer may write the slot of its next sequence number.
    pub admitted: bool,
    /// The slot at which the producer has to look at the consumers again.
    pub until: u64,
}

/// The producer's admission test for sequence number `position`.
///
/// `until` is the slot up to which the last look at the consumers cleared the
/// way, and `least` the least consumer cursor seen now (`u64::MAX` without
/// consumers). Off that slot the producer goes ahead on the cached bound and
/// `least` plays no part. On it, the slot is taken while the slowest consumer
/// is a whole ring behind; otherwise the producer goes ahead and caches the slot
/// of the slowest consumer.
pub open spec fn admission(position: u64, until: u64, capacity: usize, least: u64) -> Admission {
    if slot_of(position as int, capacity as int) != until {
        Admission { admitted: true, until }
    } else if position - least >= capacity {
        Admission { admitted: false, until }
    } else {
        Admission { admitted: true, until: slot_of(least as int, capacity as int) as u64 }
    }
}

/// Runs the admission test on plain values.
pub fn check_admission(position: u64, until: u64, capacity: usize, least: u64) -> (a: Admission)
    requires
        valid_capacity(capacity as int),
    ensures
        a == admission(position, until, capacity, least),
{
    proof {
        lemma_mask_is_mod(position, capacity);
        lemma_mask_is_mod(least, capacity);
    }
    let mask = (capacity - 1) as u64;
    if position & mask != until {
        Admission { admitted: true, until }
    } else if least <= position && position - least >= capacity as u64 {
        Admission { admitted: false, until }
    } else {
        Admission { admitted: true, until: least & mask }
    }
}

/// What a consumer that has read everything below `target` may read next:
/// everything below `least`, the least of its upstream cursors, provided that
/// lies beyond `target`.
pub open spec fn available(target: u64, least: u64) -> Option<u64> {
    if least > target {
        Some(least)
    } else {
        None
    }
}

/// Decides on plain values whether a consumer at `target` may move on.
pub fn readable(target: u64, least: u64) -> (r: Option<u64>)
    ensures
        r == available(target, least),
{
    if least > target {
        Some(least)
    } else {
        None
    }
}

/// One batch of slots: `from..to`, then `0..wrap` where the batch runs over
/// the end of the ring.
#[derive(Clone, Copy, Debug, PartialEq, Eq, Structural)]
pub struct Batch {
    /// First slot of the batch.
    pub from: usize,
    /// End of the first slice.
    pub to: usize,
    /// End of the second slice, which starts at slot zero; zero when the
    /// batch has one slice only.
    pub wrap: usize,
}

impl Batch {
    /// Number of slots in the batch.
    pub open spec fn len(self) -> int {
        self.to - self.from + self.wrap
    }

    /// The slots of the batch in the order of delivery.
    pub open spec fn slots(self) -> Seq<int> {
        Seq::new((self.to - self.from) as nat, |i: int| self.from + i) + Seq::new(
            self.wrap as nat,
            |i: int| i,
        )
    }

    /// Both slices lie inside a ring of `capacity` slots and do not overlap.
    pub open spec fn fits(self, capacity: usize) -> bool {
        self.from <= self.to <= capacity && self.wrap <= self.from
    }
}

/// The batch that takes a consumer from `cursor` to `available`.
///
/// Nothing is read unless `available` lies beyond `cursor`. The batch is one
/// slice while it ends in a higher slot than it starts in, and two slices, the
/// first up to the end of the ring, otherwise: a batch of a whole ring starts
/// and ends in one and the same slot.
pub open spec fn batch(cursor: u64, available: u64, capacity: usize) -> Batch {
    let from = slot_of(cursor as int, capacity as int) as usize;
    let to = slot_of(available as int, capacity as int) as usize;
    if available <= cursor {
        Batch { from, to: from, wrap: 0 }
    } else if to > from {
        Batch { from, to, wrap: 0 }
    } else {
        Batch { from, to: capacity, wrap: to }
    }
}

/// Computes the batch from `cursor` to `available`.
pub fn plan(cursor: u64, available: u64, capacity: usize) -> (b: Batch)
    requires
        valid_capacity(capacity as int),
    ensures
        b == batch(cursor, available, capacity),
        b.fits(capacity),
{
    proof {
        lemma_mask_is_mod(cursor, capacity);
        lemma_mask_is_mod(available, capacity);
    }
    let mask = (capacity - 1) as u64;
    let from = (cursor & mask) as usize;
    let to = (available & mask) as usize;
    if available <= cursor {
        Batch { from, to: from, wrap: 0 }
    } else if to > from {
        Batch { from, to, wrap: 0 }
    } else {
        Batch { from, to: capacity, wrap: to }
    }
}

/// A batch that does not overrun the ring delivers the slots of the sequence
/// numbers `cursor, cursor + 1, .., available - 1`, each once and in this
/// order, in at most two slices.
pub proof fn lemma_batch_in_order(cursor: u64, available: u64, capacity: usize)
    requires
        capacity > 0,
        cursor < available <= cursor + capacity,
    ensures
        batch(cursor, available, capacity).fits(capacity),
        batch(cursor, available, capacity).len() == available - cursor,
        batch(cursor, available, capacity).slots() == Seq::new(
            (available - cursor) as nat,
            |i: int| slot_of(cursor + i, capacity as int),
        ),
{
    let n = capacity as int;
    let b = batch(cursor, available, capacity);
    let d = available - cursor;
    let expected = Seq::new(d as nat, |i: int| slot_of(cursor + i, n));
    lemma_slot_step(cursor as int, d, n);
    assert(b.slots().len() == d);
    assert forall|i: int| 0 <= i < d implies b.slots()[i] == expected[i] by {
        lemma_slot_step(cursor as int, i, n);
    }
    assert(b.slots() =~= expected);
}

} // verus!
