//! The protocol between the producer and the consumers, and what it keeps true
//! at all times.
//!
//! The code of this crate runs on several threads that share nothing but the
//! cursors and the ring. This module describes the whole of it as one state,
//! a `Bus`, that moves in steps: the producer tries to publish a record, or a
//! consumer takes a batch. Each step decides by the very functions that the
//! code calls (`admission`, `available`, `batch`), fed with what the thread
//! has read from the cursors.
//!
//! A thread reads the cursors of other threads one after the other while these
//! move on, so what it has read may be out of date. As cursors only grow, a
//! value read is never more than the cursor holds now. That is all the steps
//! assume of the values read.

use vstd::prelude::*;
use vstd::arithmetic::div_mod::lemma_mod_add_multiples_vanish;
use crate::sequence::admission;
use crate::sequence::available;
use crate::sequence::batch;
use crate::sequence::lemma_batch_in_order;
use crate::sequence::lemma_min_cursor_bounds;
use crate::sequence::lemma_slot_step;
use crate::sequence::lemma_slots_differ;
use crate::sequence::min_cursor;
use crate::sequence::slot_of;
use crate::sequence::valid_capacity;
use crate::sequence::Batch;
use crate::eventprocessor::handed_over;
use crate::upstream_of;
use crate::TurbineView;

verus! {

/// The state that the producer and the consumers share, with the history of
/// what went over the ring.
pub struct Bus<T> {
    /// Number of slots in the ring.
    pub capacity: usize,
    /// The frozen graph: for each consumer, the cursors it trails.
    pub upstream: Seq<Seq<usize>>,
    /// The cursors: the producer's at zero, that of consumer `k` at `k + 1`.
    pub cursors: Seq<u64>,
    /// The slot at which the producer looks at the consumers next.
    pub until: u64,
    /// What the slots hold.
    pub slots: Seq<T>,
    /// Every record published so far, in the order of publication.
    pub log: Seq<T>,
    /// For each consumer, every record handed to its callback so far, in the
    /// order in which it was handed over.
    pub seen: Seq<Seq<T>>,
}

/// The records that a batch hands to the callback: its first slice, then its
/// second.
pub open spec fn records<T>(slots: Seq<T>, batch: Batch) -> Seq<T> {
    slots.subrange(batch.from as int, batch.to as int) + slots.subrange(0, batch.wrap as int)
}

impl<T> Bus<T> {
    /// Number of consumers.
    pub open spec fn consumers(self) -> int {
        self.upstream.len() as int
    }

    /// Number of records published.
    pub open spec fn position(self) -> u64 {
        self.cursors[0]
    }

    /// The cursor of consumer `k`: the number of records it is done with.
    pub open spec fn consumer(self, k: int) -> u64 {
        self.cursors[k + 1]
    }

    /// The state right after the graph was frozen: nothing published, every
    /// cursor at zero, and the producer free to fill the ring but for its
    /// last slot before it looks at the consumers.
    pub open spec fn initial(self, declared: Seq<Seq<usize>>) -> bool {
        &&& valid_capacity(self.capacity as int)
        &&& declared.len() < usize::MAX
        &&& crate::closed_under(declared)
        &&& self.upstream == Seq::new(declared.len(), |k: int| upstream_of(declared[k]))
        &&& self.cursors == Seq::new(declared.len() + 1, |i: int| 0u64)
        &&& self.until == self.capacity - 1
        &&& self.slots.len() == self.capacity
        &&& self.log == Seq::<T>::empty()
        &&& self.seen == Seq::new(declared.len(), |k: int| Seq::<T>::empty())
    }

    /// `observed` may be what a thread has read from the cursors listed in
    /// `wanted`: one value for each, none beyond what the cursor holds.
    pub open spec fn may_observe(self, wanted: Seq<usize>, observed: Seq<u64>) -> bool {
        &&& observed.len() == wanted.len()
        &&& forall|i: int|
            0 <= i < wanted.len() ==> (#[trigger] observed[i]) <= self.cursors[wanted[i] as int]
    }

    /// The cursors that the producer reads: those of all consumers.
    pub open spec fn all_consumers(self) -> Seq<usize> {
        Seq::new(self.upstream.len(), |k: int| (k + 1) as usize)
    }

    /// The producer tries to publish `data`, having read `observed` from the
    /// cursors of the consumers where it had to. If the admission test lets
    /// it, the record goes into the slot of the position and the position
    /// moves on; if not, nothing changes.
    pub open spec fn publishes(self, next: Bus<T>, data: T, observed: Seq<u64>) -> bool {
        let outcome = admission(
            self.position(),
            self.until,
            self.capacity,
            min_cursor(observed),
        );
        &&& self.may_observe(self.all_consumers(), observed)
        &&& self.position() < u64::MAX
        &&& if outcome.admitted {
            next == (Bus {
                cursors: self.cursors.update(0, (self.position() + 1) as u64),
                until: outcome.until,
                slots: self.slots.update(
                    slot_of(self.position() as int, self.capacity as int),
                    data,
                ),
                log: self.log.push(data),
                ..self
            })
        } else {
            next == self
        }
    }

    /// Consumer `k` asks how far it may read, having read `observed` from the
    /// cursors it trails. If something is available, the batch up to there
    /// goes to its callback and its cursor moves there; if not, nothing
    /// changes.
    pub open spec fn consumes(self, next: Bus<T>, k: int, observed: Seq<u64>) -> bool {
        &&& 0 <= k < self.consumers()
        &&& self.may_observe(self.upstream[k], observed)
        &&& match available(self.consumer(k), min_cursor(observed)) {
            Some(reached) => next == (Bus {
                cursors: self.cursors.update(k + 1, reached),
                seen: self.seen.update(
                    k,
                    self.seen[k] + records(
                        self.slots,
                        batch(self.consumer(k), reached, self.capacity),
                    ),
                ),
                ..self
            }),
            None => next == self,
        }
    }

    /// One step of the bus: an attempt to publish, or a consumer's turn.
    pub open spec fn steps_to(self, next: Bus<T>) -> bool {
        ||| exists|data: T, observed: Seq<u64>| #[trigger] self.publishes(next, data, observed)
        ||| exists|k: int, observed: Seq<u64>| #[trigger] self.consumes(next, k, observed)
    }

    /// The parts of the state fit together: there is a cursor for the
    /// producer and for each consumer, every consumer trails at least one
    /// cursor, and the log holds as many records as were published.
    pub open spec fn consistent(self) -> bool {
        &&& valid_capacity(self.capacity as int)
        &&& self.slots.len() == self.capacity
        &&& self.cursors.len() == self.upstream.len() + 1
        &&& self.cursors.len() <= usize::MAX
        &&& self.seen.len() == self.upstream.len()
        &&& self.log.len() == self.position()
        &&& forall|k: int| 0 <= k < self.upstream.len() ==> (#[trigger] self.upstream[k]).len() > 0
        &&& forall|k: int, i: int|
            0 <= k < self.upstream.len() && 0 <= i < self.upstream[k].len() ==> (
            #[trigger] self.upstream[k][i]) < self.cursors.len()
    }

    /// No consumer is ahead of the producer, and the producer is at most one
    /// ring ahead of any consumer.
    pub open spec fn within_one_ring(self) -> bool {
        forall|k: int|
            0 <= k < self.consumers() ==> (#[trigger] self.consumer(k)) <= self.position()
                <= self.consumer(k) + self.capacity
    }

    /// No consumer is ahead of a cursor that it trails.
    pub open spec fn behind_upstream(self) -> bool {
        forall|k: int, i: int|
            0 <= k < self.consumers() && 0 <= i < self.upstream[k].len() ==> self.consumer(k)
                <= self.cursors[(#[trigger] self.upstream[k][i]) as int]
    }

    /// The slot that the producer keeps in mind stands for a bound, `floor`,
    /// that no consumer is behind, and the producer is at most one ring
    /// beyond it.
    pub open spec fn cache_holds(self, floor: int) -> bool {
        &&& -1 <= floor <= self.position() <= floor + self.capacity
        &&& self.until == slot_of(floor, self.capacity as int)
        &&& forall|k: int| 0 <= k < self.consumers() ==> floor <= #[trigger] self.consumer(k)
    }

    /// Where there are consumers, the slot that the producer keeps in mind
    /// stands for a bound that holds.
    pub open spec fn cache_sound(self) -> bool {
        self.consumers() > 0 ==> exists|floor: int| #[trigger] self.cache_holds(floor)
    }

    /// The ring holds the records published last: as many as it has slots,
    /// each in the slot of its sequence number.
    pub open spec fn retains_last_ring(self) -> bool {
        forall|q: int|
            0 <= q < self.position() && self.position() - self.capacity <= q ==> self.slots[slot_of(
                q,
                self.capacity as int,
            )] == #[trigger] self.log[q]
    }

    /// What a consumer has seen is what was published, record by record and
    /// in the same order, up to its cursor.
    pub open spec fn seen_in_order(self) -> bool {
        forall|k: int|
            0 <= k < self.consumers() ==> (#[trigger] self.seen[k]) == self.log.subrange(
                0,
                self.consumer(k) as int,
            )
    }

    /// Everything that holds at all times.
    pub open spec fn sound(self) -> bool {
        &&& self.consistent()
        &&& self.within_one_ring()
        &&& self.behind_upstream()
        &&& self.cache_sound()
        &&& self.retains_last_ring()
        &&& self.seen_in_order()
    }
}

/// The state is sound when the graph has just been frozen.
pub proof fn lemma_initial_sound<T>(bus: Bus<T>, declared: Seq<Seq<usize>>)
    requires
        bus.initial(declared),
    ensures
        bus.sound(),
{
    let n = bus.capacity as int;
    assert(bus.consistent()) by {
        assert forall|k: int, i: int|
            0 <= k < bus.upstream.len() && 0 <= i < bus.upstream[k].len() implies (
        #[trigger] bus.upstream[k][i]) < bus.cursors.len() by {
            if declared[k].len() > 0 {
                assert(declared[k][i] < declared.len());
            }
        }
    }
    assert(bus.cache_sound()) by {
        if bus.consumers() > 0 {
            crate::sequence::lemma_mask_is_mod(0, bus.capacity);
            lemma_mod_add_multiples_vanish(-1, n);
            assert(slot_of(-1, n) == slot_of(n - 1, n));
            lemma_slot_step(0, n - 1, n);
            assert(bus.cache_holds(-1));
        }
    }
    assert(bus.seen_in_order()) by {
        assert forall|k: int| 0 <= k < bus.consumers() implies (#[trigger] bus.seen[k])
            == bus.log.subrange(0, bus.consumer(k) as int) by {
            assert(bus.seen[k] =~= bus.log.subrange(0, 0));
        }
    }
}

/// An attempt to publish keeps the state sound, whatever the producer has
/// read from the cursors of the consumers.
pub proof fn lemma_publish_keeps_sound<T>(bus: Bus<T>, next: Bus<T>, data: T, observed: Seq<u64>)
    requires
        bus.sound(),
        bus.publishes(next, data, observed),
    ensures
        next.sound(),
{
    let n = bus.capacity as int;
    let p = bus.position() as int;
    let least = min_cursor(observed);
    let outcome = admission(bus.position(), bus.until, bus.capacity, least);
    crate::sequence::lemma_mask_is_mod(bus.position(), bus.capacity);
    crate::sequence::lemma_mask_is_mod(least, bus.capacity);
    lemma_min_cursor_bounds(observed);
    if outcome.admitted {
        assert forall|k: int| 0 <= k < bus.consumers() implies next.consumer(k) == bus.consumer(
            k,
        ) && least <= bus.consumer(k) by {
            assert(observed[k] <= bus.cursors[bus.all_consumers()[k] as int]);
        }
        assert(next.consistent());
        if bus.consumers() > 0 {
            let floor = choose|floor: int| #[trigger] bus.cache_holds(floor);
            let on_bound = slot_of(p, n) == bus.until;
            let bound = if on_bound {
                least as int
            } else {
                floor
            };
            if on_bound {
                assert(least <= bus.consumer(0));
                assert(bus.consumer(0) <= bus.position());
            } else {
                lemma_mod_add_multiples_vanish(floor, n);
                assert(slot_of(floor + n, n) == slot_of(floor, n));
                assert(p != floor + n);
            }
            assert(next.cache_holds(bound)) by {
                assert forall|k: int| 0 <= k < next.consumers() implies bound
                    <= #[trigger] next.consumer(k) by {
                    assert(floor <= bus.consumer(k));
                }
            }
            assert(next.within_one_ring()) by {
                assert forall|k: int| 0 <= k < next.consumers() implies (#[trigger] next.consumer(
                    k,
                )) <= next.position() <= next.consumer(k) + next.capacity by {
                    assert(bus.consumer(k) <= bus.position());
                    assert(bound <= next.consumer(k));
                }
            }
        }
        assert(next.behind_upstream()) by {
            assert forall|k: int, i: int|
                0 <= k < next.consumers() && 0 <= i < next.upstream[k].len() implies next.consumer(
                k,
            ) <= next.cursors[(#[trigger] next.upstream[k][i]) as int] by {
                assert(bus.consumer(k) <= bus.cursors[bus.upstream[k][i] as int]);
            }
        }
        assert(next.retains_last_ring()) by {
            assert forall|q: int|
                0 <= q < next.position() && next.position() - next.capacity <= q implies next.slots[slot_of(
                q,
                n,
            )] == #[trigger] next.log[q] by {
                lemma_slot_step(q, 0, n);
                if q < p {
                    lemma_slots_differ(q, p, n);
                    assert(bus.slots[slot_of(q, n)] == bus.log[q]);
                }
            }
        }
        assert(next.seen_in_order()) by {
            assert forall|k: int| 0 <= k < next.consumers() implies (#[trigger] next.seen[k])
                == next.log.subrange(0, next.consumer(k) as int) by {
                assert(bus.consumer(k) <= bus.position());
                assert(bus.seen[k] == bus.log.subrange(0, bus.consumer(k) as int));
                assert(next.log.subrange(0, bus.consumer(k) as int) =~= bus.log.subrange(
                    0,
                    bus.consumer(k) as int,
                ));
            }
        }
    }
}

/// A batch that stays within one ring of records that are still in their
/// slots hands over the records published under the sequence numbers from
/// `cursor` up to `reached`, in the order of publication: the first slice up to
/// the end of the ring, then the second from its start.
pub proof fn lemma_batch_reads_log<T>(bus: Bus<T>, cursor: u64, reached: u64)
    requires
        bus.consistent(),
        bus.retains_last_ring(),
        cursor < reached <= bus.position() <= cursor + bus.capacity,
    ensures
        records(bus.slots, batch(cursor, reached, bus.capacity)) == bus.log.subrange(
            cursor as int,
            reached as int,
        ),
{
    let n = bus.capacity as int;
    let b = batch(cursor, reached, bus.capacity);
    let read = records(bus.slots, b);
    let wanted = bus.log.subrange(cursor as int, reached as int);
    crate::sequence::lemma_mask_is_mod(cursor, bus.capacity);
    lemma_batch_in_order(cursor, reached, bus.capacity);
    assert(read.len() == wanted.len());
    assert forall|i: int| 0 <= i < read.len() implies read[i] == wanted[i] by {
        let slot = b.slots()[i];
        assert(slot == slot_of(cursor + i, n));
        assert(read[i] == bus.slots[slot]);
        assert(bus.slots[slot_of(cursor + i, n)] == bus.log[cursor + i]);
    }
    assert(read =~= wanted);
}

/// A consumer's turn keeps the state sound, whatever the consumer has read
/// from the cursors it trails.
pub proof fn lemma_consume_keeps_sound<T>(bus: Bus<T>, next: Bus<T>, k: int, observed: Seq<u64>)
    requires
        bus.sound(),
        bus.consumes(next, k, observed),
    ensures
        next.sound(),
{
    let least = min_cursor(observed);
    let cursor = bus.consumer(k);
    lemma_min_cursor_bounds(observed);
    if least > cursor {
        let row = bus.upstream[k];
        assert(row.len() > 0);
        assert forall|i: int| 0 <= i < row.len() implies least <= bus.cursors[row[i] as int]
            && row[i] != k + 1 by {
            assert(least <= observed[i]);
            assert(observed[i] <= bus.cursors[row[i] as int]);
        }
        lemma_reach_is_published(bus, k, observed);
        assert(bus.consumer(k) <= bus.position() <= bus.consumer(k) + bus.capacity);
        assert(next.consistent());
        assert(next.within_one_ring()) by {
            assert forall|j: int| 0 <= j < next.consumers() implies (#[trigger] next.consumer(j))
                <= next.position() <= next.consumer(j) + next.capacity by {
                assert(bus.consumer(j) <= bus.position() <= bus.consumer(j) + bus.capacity);
            }
        }
        assert(next.behind_upstream()) by {
            assert forall|j: int, i: int|
                0 <= j < next.consumers() && 0 <= i < next.upstream[j].len() implies next.consumer(
                j,
            ) <= next.cursors[(#[trigger] next.upstream[j][i]) as int] by {
                let up = bus.upstream[j][i];
                assert(up < bus.cursors.len());
                assert(bus.consumer(j) <= bus.cursors[up as int]);
                if j == k {
                    assert(least <= bus.cursors[row[i] as int] && row[i] != k + 1);
                }
            }
        }
        if bus.consumers() > 0 {
            let floor = choose|floor: int| #[trigger] bus.cache_holds(floor);
            assert(next.cache_holds(floor)) by {
                assert forall|j: int| 0 <= j < next.consumers() implies floor
                    <= #[trigger] next.consumer(j) by {
                    assert(floor <= bus.consumer(j));
                }
            }
        }
        assert(next.retains_last_ring()) by {
            assert forall|q: int|
                0 <= q < next.position() && next.position() - next.capacity <= q implies next.slots[slot_of(
                q,
                next.capacity as int,
            )] == #[trigger] next.log[q] by {
                assert(bus.slots[slot_of(q, bus.capacity as int)] == bus.log[q]);
            }
        }
        assert(next.seen_in_order()) by {
            assert forall|j: int| 0 <= j < next.consumers() implies (#[trigger] next.seen[j])
                == next.log.subrange(0, next.consumer(j) as int) by {
                assert(bus.seen[j] == bus.log.subrange(0, bus.consumer(j) as int));
                if j == k {
                    lemma_batch_reads_log(bus, cursor, least);
                    assert(next.seen[k] =~= bus.log.subrange(0, least as int));
                }
            }
        }
    }
}

/// Every step keeps the state sound.
pub proof fn lemma_step_keeps_sound<T>(bus: Bus<T>, next: Bus<T>)
    requires
        bus.sound(),
        bus.steps_to(next),
    ensures
        next.sound(),
{
    if exists|data: T, observed: Seq<u64>| #[trigger] bus.publishes(next, data, observed) {
        let (data, observed) = choose|data: T, observed: Seq<u64>| #[trigger]
            bus.publishes(next, data, observed);
        lemma_publish_keeps_sound(bus, next, data, observed);
    } else {
        let (k, observed) = choose|k: int, observed: Seq<u64>| #[trigger]
            bus.consumes(next, k, observed);
        lemma_consume_keeps_sound(bus, next, k, observed);
    }
}

/// A run of the bus: it starts when the graph is frozen and goes on step by
/// step.
pub open spec fn is_run<T>(run: Seq<Bus<T>>, declared: Seq<Seq<usize>>) -> bool {
    &&& run.len() > 0
    &&& run[0].initial(declared)
    &&& forall|t: int| 0 <= t < run.len() - 1 ==> (#[trigger] run[t]).steps_to(run[t + 1])
}

/// Every state of every run is sound.
pub proof fn lemma_run_is_sound<T>(run: Seq<Bus<T>>, declared: Seq<Seq<usize>>, t: int)
    requires
        is_run(run, declared),
        0 <= t < run.len(),
    ensures
        run[t].sound(),
    decreases t,
{
    if t == 0 {
        lemma_initial_sound(run[0], declared);
    } else {
        lemma_run_is_sound(run, declared, t - 1);
        assert(run[t - 1].steps_to(run[t - 1 + 1]));
        lemma_step_keeps_sound(run[t - 1], run[t]);
    }
}

/// At all times no consumer is ahead of the producer, and the producer is at
/// most one ring ahead of any consumer: a record is overwritten only after
/// every consumer is done with it.
pub proof fn lemma_cursors_within_one_ring<T>(
    run: Seq<Bus<T>>,
    declared: Seq<Seq<usize>>,
    t: int,
    k: int,
)
    requires
        is_run(run, declared),
        0 <= t < run.len(),
        0 <= k < run[t].consumers(),
    ensures
        run[t].consumer(k) <= run[t].position(),
        run[t].position() - run[t].consumer(k) <= run[t].capacity,
{
    lemma_run_is_sound(run, declared, t);
}

/// At all times a consumer that was told to trail another is not ahead of it.
pub proof fn lemma_dependency_is_kept<T>(
    run: Seq<Bus<T>>,
    declared: Seq<Seq<usize>>,
    t: int,
    k: int,
    i: int,
)
    requires
        is_run(run, declared),
        0 <= t < run.len(),
        0 <= k < declared.len(),
        0 <= i < declared[k].len(),
    ensures
        run[t].consumers() == declared.len(),
        run[t].consumer(k) <= run[t].consumer(declared[k][i] as int),
{
    lemma_run_keeps_graph(run, declared, t);
    lemma_run_is_sound(run, declared, t);
    let bus = run[t];
    assert(declared[k][i] < declared.len());
    assert(bus.upstream[k][i] == declared[k][i] + 1);
    assert(bus.consumer(k) <= bus.cursors[bus.upstream[k][i] as int]);
}

/// No step changes the graph or the capacity.
pub proof fn lemma_run_keeps_graph<T>(run: Seq<Bus<T>>, declared: Seq<Seq<usize>>, t: int)
    requires
        is_run(run, declared),
        0 <= t < run.len(),
    ensures
        run[t].upstream == run[0].upstream,
        run[t].capacity == run[0].capacity,
    decreases t,
{
    if t > 0 {
        lemma_run_keeps_graph(run, declared, t - 1);
        assert(run[t - 1].steps_to(run[t - 1 + 1]));
    }
}

/// At all times a consumer has seen the records that were published, each of
/// them once and in the order of publication, up to its cursor: record number
/// `q` that it has seen is record number `q` that was published.
pub proof fn lemma_seen_in_order_of_publication<T>(
    run: Seq<Bus<T>>,
    declared: Seq<Seq<usize>>,
    t: int,
    k: int,
)
    requires
        is_run(run, declared),
        0 <= t < run.len(),
        0 <= k < run[t].consumers(),
    ensures
        run[t].seen[k].len() == run[t].consumer(k),
        run[t].seen[k] == run[t].log.subrange(0, run[t].consumer(k) as int),
        forall|q: int| 0 <= q < run[t].consumer(k) ==> run[t].seen[k][q] == run[t].log[q],
{
    lemma_run_is_sound(run, declared, t);
    assert(run[t].consumer(k) <= run[t].position());
}

/// The sum of what `weigh` makes of each record.
pub open spec fn total<T>(records: Seq<T>, weigh: spec_fn(T) -> int) -> int
    decreases records.len(),
{
    if records.len() == 0 {
        0
    } else {
        total(records.drop_last(), weigh) + weigh(records.last())
    }
}

/// A consumer that has caught up with the producer has seen exactly what was
/// published, so whatever is summed over the records comes out the same on
/// both sides.
pub proof fn lemma_caught_up_sees_all<T>(
    run: Seq<Bus<T>>,
    declared: Seq<Seq<usize>>,
    t: int,
    k: int,
    weigh: spec_fn(T) -> int,
)
    requires
        is_run(run, declared),
        0 <= t < run.len(),
        0 <= k < run[t].consumers(),
        run[t].consumer(k) == run[t].position(),
    ensures
        run[t].seen[k] == run[t].log,
        total(run[t].seen[k], weigh) == total(run[t].log, weigh),
{
    lemma_run_is_sound(run, declared, t);
    assert(run[t].log.subrange(0, run[t].log.len() as int) =~= run[t].log);
}

/// While a consumer is a whole ring behind, an attempt to publish changes
/// nothing, whatever the producer reads from the cursors: the producer stays
/// where it is until that consumer has moved on.
pub proof fn lemma_full_ring_blocks<T>(
    bus: Bus<T>,
    next: Bus<T>,
    data: T,
    observed: Seq<u64>,
    k: int,
)
    requires
        bus.sound(),
        0 <= k < bus.consumers(),
        bus.position() - bus.consumer(k) == bus.capacity,
        bus.publishes(next, data, observed),
    ensures
        next == bus,
{
    let n = bus.capacity as int;
    crate::sequence::lemma_mask_is_mod(bus.position(), bus.capacity);
    let floor = choose|floor: int| #[trigger] bus.cache_holds(floor);
    assert(floor <= bus.consumer(k));
    assert(floor + n == bus.position());
    lemma_mod_add_multiples_vanish(floor, n);
    assert(slot_of(bus.position() as int, n) == bus.until);
    lemma_min_cursor_bounds(observed);
    assert(observed[k] <= bus.cursors[bus.all_consumers()[k] as int]);
    assert(min_cursor(observed) <= bus.consumer(k));
}

/// The coordinator with view `view` is the producer of `bus`: it has the
/// capacity, the position and the slot kept in mind that the bus has.
pub open spec fn produces_for<T>(view: TurbineView, bus: Bus<T>) -> bool {
    &&& view.capacity == bus.capacity
    &&& view.position == bus.position()
    &&& view.until == bus.until
}

/// What the contract of `Turbine::write` says of a call is a step of the bus:
/// where the call took the coordinator from `before` to `after`, having read
/// `observed`, the bus moves to a state that is sound again and that the
/// coordinator is the producer of, and the record is in the log exactly if
/// the call published it.
pub proof fn lemma_write_is_a_step<T>(
    bus: Bus<T>,
    before: TurbineView,
    after: TurbineView,
    data: T,
    observed: Seq<u64>,
    done: bool,
) -> (next: Bus<T>)
    requires
        bus.sound(),
        produces_for(before, bus),
        before.position < u64::MAX,
        bus.may_observe(bus.all_consumers(), observed),
        before.published(min_cursor(observed), done, after),
    ensures
        bus.publishes(next, data, observed),
        next.sound(),
        produces_for(after, next),
        done <==> next.log == bus.log.push(data),
{
    let outcome = admission(bus.position(), bus.until, bus.capacity, min_cursor(observed));
    let next = if outcome.admitted {
        Bus {
            cursors: bus.cursors.update(0, (bus.position() + 1) as u64),
            until: outcome.until,
            slots: bus.slots.update(slot_of(bus.position() as int, bus.capacity as int), data),
            log: bus.log.push(data),
            ..bus
        }
    } else {
        bus
    };
    lemma_publish_keeps_sound(bus, next, data, observed);
    if !outcome.admitted {
        assert(bus.log.push(data).len() != bus.log.len());
    }
    next
}

/// A consumer that may move on moves to a position that the producer has
/// reached.
pub proof fn lemma_reach_is_published<T>(bus: Bus<T>, k: int, observed: Seq<u64>)
    requires
        bus.sound(),
        0 <= k < bus.consumers(),
        bus.may_observe(bus.upstream[k], observed),
    ensures
        min_cursor(observed) <= bus.position(),
{
    lemma_min_cursor_bounds(observed);
    let first = bus.upstream[k][0];
    assert(bus.upstream[k].len() > 0);
    assert(first < bus.cursors.len());
    assert(observed[0] <= bus.cursors[first as int]);
    if first > 0 {
        assert(bus.consumer(first - 1) <= bus.position());
    }
}

/// What the contract of `deliver` says of a batch is what the protocol
/// promises: where consumer `k` may read up to `reached`, the two slices that
/// its callback gets hold, one after the other, the records published under
/// the sequence numbers from its cursor up to `reached`, each once and in the
/// order of publication.
pub proof fn lemma_delivery_is_in_order<T, F: FnMut(&[T]) -> Result<(), ()>>(
    bus: Bus<T>,
    k: int,
    observed: Seq<u64>,
    reached: u64,
    f: F,
    head: &[T],
    first: Result<(), ()>,
    tail: &[T],
    second: Result<(), ()>,
    stop: bool,
)
    requires
        bus.sound(),
        0 <= k < bus.consumers(),
        bus.may_observe(bus.upstream[k], observed),
        available(bus.consumer(k), min_cursor(observed)) == Some(reached),
        handed_over(
            f,
            bus.slots,
            batch(bus.consumer(k), reached, bus.capacity),
            head,
            first,
            tail,
            second,
            stop,
        ),
    ensures
        head@ + tail@ == bus.log.subrange(bus.consumer(k) as int, reached as int),
{
    lemma_reach_is_published(bus, k, observed);
    assert(bus.consumer(k) <= bus.position() <= bus.consumer(k) + bus.capacity);
    lemma_batch_reads_log(bus, bus.consumer(k), reached);
}

} // verus!
