//! Turbine is a fast way to pass records from one thread to many.
//!
//! One producer publishes records into a ring of slots that is allocated up
//! front. Any number of consumers read them, each at its own pace, and a
//! consumer may be told to stay behind others, so that, say, the business
//! logic sees a record only after the journal has it on disk. Nothing is
//! copied and no queue grows: the producer and the consumers agree on who may
//! touch which slot through one counter each, its cursor.
//!
//! A `Turbine` is built in three steps. `ep_new` declares a consumer and
//! `ep_depends` an edge between two; the first `ep_finalize` freezes the graph
//! and hands out the handle of a consumer, an `EventProcessor`. From then on
//! the owner of the `Turbine` publishes with `write`, and each handle reads with
//! `start` on a thread of its own.
//!
//! Neither `write` nor `start` waits for the other side to make progress:
//! `write` gives the record back while the ring is full, and `start` returns
//! when there is nothing left to read. A caller that wants to block calls them
//! in a loop.
//!
//! The slots themselves sit behind a reader-writer lock. The producer takes it
//! for the moment of a write and a consumer holds it, as a reader, while its
//! callback looks at a batch, so a callback that takes its time keeps the
//! producer waiting even for a free slot. Which slot may be written and which
//! may be read is decided by the cursors alone; the module `protocol` states
//! what they keep true at all times, and proves it.

pub mod atomicnum;
pub mod eventprocessor;
pub mod paddedatomics;
pub mod protocol;
pub mod ringbuffer;
pub mod sequence;
pub mod waitstrategy;

pub use eventprocessor::EventProcessor;
pub use eventprocessor::Halt;
pub use paddedatomics::Padded64;
pub use ringbuffer::RingBuffer;
pub use ringbuffer::Slot;
pub use waitstrategy::BusyWait;
pub use waitstrategy::WaitStrategy;

use vstd::prelude::*;
use vstd::rwlock::RwLock;
use std::sync::Arc;
use crate::ringbuffer::HasCapacity;
use crate::sequence::admission;
use crate::sequence::check_admission;
use crate::sequence::least_observed;
use crate::sequence::min_cursor;
use crate::sequence::valid_capacity;

verus! {

/// Why the graph of consumers could not be changed or read.
#[derive(Clone, Copy, Debug, PartialEq, Eq, Structural)]
pub enum TurbineError {
    /// The graph is frozen: a consumer was finalized before.
    Finalized,
    /// A token names no declared consumer.
    UnknownToken,
}

/// What a `Turbine` is, as far as its contracts go.
pub struct TurbineView {
    /// Number of slots in the ring.
    pub capacity: usize,
    /// Whether the graph is frozen.
    pub finalized: bool,
    /// For each declared consumer, the consumers it was told to trail, in
    /// the order of the declarations.
    pub declared: Seq<Seq<usize>>,
    /// The cursors, the producer's first; none before the graph is frozen.
    pub cursors: Seq<Padded64>,
    /// How many records were published.
    pub position: u64,
    /// The slot at which the producer looks at the consumers next.
    pub until: u64,
}

/// The cursors that a consumer trails once the graph is frozen: the producer's
/// cursor, number zero, if it was told to trail nobody, and else the cursors
/// of the consumers it was told to trail, which lie one past their tokens.
pub open spec fn upstream_of(declared: Seq<usize>) -> Seq<usize> {
    if declared.len() == 0 {
        seq![0usize]
    } else {
        Seq::new(declared.len(), |i: int| (declared[i] + 1) as usize)
    }
}

/// The declarations after consumer `consumer` was told to trail consumer
/// `upstream` as well.
pub open spec fn with_dependency(declared: Seq<Seq<usize>>, consumer: usize, upstream: usize) -> Seq<
    Seq<usize>,
> {
    declared.update(consumer as int, declared[consumer as int].push(upstream))
}

impl TurbineView {
    /// The frozen graph: one row of cursor positions for each consumer.
    pub open spec fn graph(self) -> Seq<Seq<usize>> {
        Seq::new(self.declared.len(), |k: int| upstream_of(self.declared[k]))
    }

    /// One admission test takes `self` to `after` and answers `free` when
    /// `least` is the least consumer cursor that the test would read: only
    /// the slot kept in mind changes, as `admission` says.
    pub open spec fn tested(self, least: u64, free: bool, after: TurbineView) -> bool {
        let outcome = admission(self.position, self.until, self.capacity, least);
        free == outcome.admitted && after == (TurbineView { until: outcome.until, ..self })
    }

    /// One call of `write` takes `self` to `after` when `least` is the least
    /// consumer cursor that its admission test would read: the record is
    /// published exactly if the test admits it, and then the position moves
    /// on by one.
    pub open spec fn published(self, least: u64, done: bool, after: TurbineView) -> bool {
        let outcome = admission(self.position, self.until, self.capacity, least);
        done == outcome.admitted && after == (TurbineView {
            until: outcome.until,
            position: if outcome.admitted {
                (self.position + 1) as u64
            } else {
                self.position
            },
            ..self
        })
    }

    /// Number of consumers whose cursors the producer has to mind.
    pub open spec fn consumers(self) -> nat {
        if self.cursors.len() == 0 {
            0
        } else {
            (self.cursors.len() - 1) as nat
        }
    }
}

/// The coordinator: it holds the graph of consumers while that is built, and
/// publishes records once it is frozen.
pub struct Turbine<T> {
    finalized: bool,
    epb: Vec<Vec<usize>>,
    graph: Arc<Vec<Vec<usize>>>,
    cursors: Arc<Vec<Padded64>>,
    ring: Arc<RwLock<RingBuffer<T>, HasCapacity>>,
    current_pos: u64,
    size: usize,
    mask: u64,
    until: u64,
}

/// Every cursor was created at sequence number zero.
pub open spec fn all_at_zero(cursors: Seq<Padded64>) -> bool {
    forall|i: int| 0 <= i < cursors.len() ==> (#[trigger] cursors[i]).initial() == 0
}

/// The rows of a vector of vectors.
pub open spec fn rows(table: Seq<Vec<usize>>) -> Seq<Seq<usize>> {
    Seq::new(table.len(), |k: int| table[k]@)
}

/// Every entry of every row names a row.
pub open spec fn closed_under(declared: Seq<Seq<usize>>) -> bool {
    forall|k: int, i: int|
        0 <= k < declared.len() && 0 <= i < declared[k].len() ==> (#[trigger] declared[k][i])
            < declared.len()
}

impl<T> View for Turbine<T> {
    type V = TurbineView;

    closed spec fn view(&self) -> TurbineView {
        TurbineView {
            capacity: self.size,
            finalized: self.finalized,
            declared: rows(self.epb@),
            cursors: self.cursors@,
            position: self.current_pos,
            until: self.until,
        }
    }
}

impl<T> Turbine<T> {
    #[verifier::type_invariant]
    spec fn well_formed(self) -> bool {
        &&& valid_capacity(self.size as int)
        &&& self.mask == self.size - 1
        &&& self.ring.pred().capacity == self.size
        &&& closed_under(rows(self.epb@))
        &&& self.finalized ==> {
            &&& rows(self.graph@) == self@.graph()
            &&& self.cursors@.len() == self.epb@.len() + 1
        }
    }

    /// The lock that guards the ring.
    pub closed spec fn ring(&self) -> RwLock<RingBuffer<T>, HasCapacity> {
        *self.ring
    }
}

impl<T: Slot> Turbine<T> {
    /// Makes a coordinator over a ring of `ring_size` slots, all of them
    /// allocated and filled with fresh records at once.
    ///
    /// `ring_size` has to be a power of two.
    pub fn new(ring_size: usize) -> (turbine: Turbine<T>)
        requires
            valid_capacity(ring_size as int),
        ensures
            turbine@ == (TurbineView {
                capacity: ring_size,
                finalized: false,
                declared: Seq::empty(),
                cursors: Seq::empty(),
                position: 0,
                until: (ring_size - 1) as u64,
            }),
    {
        proof {
            crate::sequence::lemma_mask_is_mod(0, ring_size);
        }
        let epb: Vec<Vec<usize>> = Vec::with_capacity(8);
        let ring = RwLock::new(
            RingBuffer::<T>::new(ring_size),
            Ghost(HasCapacity { capacity: ring_size }),
        );
        let turbine = Turbine::<T> {
            finalized: false,
            epb: epb,
            graph: Arc::new(Vec::new()),
            cursors: Arc::new(Vec::new()),
            ring: Arc::new(ring),
            current_pos: 0,
            size: ring_size,
            mask: (ring_size - 1) as u64,
            until: (ring_size - 1) as u64,
        };
        assert(turbine@.declared =~= Seq::empty());
        turbine
    }

    /// Declares a consumer and returns its token, the number of consumers
    /// declared before it. The consumer trails nobody yet.
    ///
    /// Fails, and changes nothing, once the graph is frozen.
    pub fn ep_new(&mut self) -> (token: Result<usize, TurbineError>)
        ensures
            old(self)@.finalized ==> token == Err::<usize, TurbineError>(TurbineError::Finalized)
                && final(self)@ == old(self)@,
            !old(self)@.finalized ==> (token matches Ok(t) && t == old(self)@.declared.len())
                && final(self)@ == (TurbineView {
                declared: old(self)@.declared.push(Seq::empty()),
                ..old(self)@
            }),
    {
        proof {
            use_type_invariant(&*self);
        }
        if self.finalized {
            return Err(TurbineError::Finalized);
        }
        let mut epb: Vec<Vec<usize>> = Vec::new();
        std::mem::swap(&mut epb, &mut self.epb);
        let token = epb.len();
        epb.push(Vec::new());
        proof {
            let before = rows(old(self).epb@);
            let after = rows(epb@);
            assert(after =~= before.push(Seq::empty()));
            assert forall|k: int, i: int|
                0 <= k < after.len() && 0 <= i < after[k].len() implies (#[trigger] after[k][i])
                < after.len() by {
                assert(after[k] == before[k]);
            }
        }
        self.epb = epb;
        Ok(token)
    }

    /// Tells consumer `epb_index` to stay behind consumer `dep`: it will see a
    /// record only after `dep` is done with it.
    ///
    /// Consumers may be chained and fanned out at will, but nothing looks for
    /// cycles: a consumer that trails itself, directly or through others,
    /// never moves.
    ///
    /// Fails, and changes nothing, once the graph is frozen, and when one of
    /// the two tokens names no declared consumer.
    pub fn ep_depends(&mut self, epb_index: usize, dep: usize) -> (done: Result<(), TurbineError>)
        ensures
            old(self)@.finalized ==> done == Err::<(), TurbineError>(TurbineError::Finalized)
                && final(self)@ == old(self)@,
            !old(self)@.finalized && (epb_index >= old(self)@.declared.len() || dep >= old(
                self,
            )@.declared.len()) ==> done == Err::<(), TurbineError>(TurbineError::UnknownToken)
                && final(self)@ == old(self)@,
            !old(self)@.finalized && epb_index < old(self)@.declared.len() && dep < old(
                self,
            )@.declared.len() ==> done == Ok::<(), TurbineError>(()) && final(self)@
                == (TurbineView {
                declared: with_dependency(old(self)@.declared, epb_index, dep),
                ..old(self)@
            }),
    {
        proof {
            use_type_invariant(&*self);
        }
        if self.finalized {
            return Err(TurbineError::Finalized);
        }
        if epb_index >= self.epb.len() || dep >= self.epb.len() {
            return Err(TurbineError::UnknownToken);
        }
        let mut epb: Vec<Vec<usize>> = Vec::new();
        std::mem::swap(&mut epb, &mut self.epb);
        let mut row: Vec<usize> = Vec::new();
        std::mem::swap(&mut row, &mut epb[epb_index]);
        row.push(dep);
        epb.set(epb_index, row);
        proof {
            let before = rows(old(self).epb@);
            let after = rows(epb@);
            assert(after =~= with_dependency(before, epb_index, dep));
            assert forall|k: int, i: int|
                0 <= k < after.len() && 0 <= i < after[k].len() implies (#[trigger] after[k][i])
                < after.len() by {
                if k == epb_index && i == after[k].len() - 1 {
                } else {
                    assert(after[k][i] == before[k][i]);
                }
            }
        }
        self.epb = epb;
        Ok(())
    }

    /// Freezes the graph, if it is not frozen yet, and hands out a handle of
    /// consumer `token`.
    ///
    /// Whatever the token, no consumer or dependency can be declared after
    /// this call. A token that names no declared consumer gets no handle. Each
    /// call with one and the same token gives another handle of the same
    /// consumer: they share its cursor, and it is up to the caller to run only
    /// one of them.
    pub fn ep_finalize(&mut self, token: usize) -> (handle: Result<EventProcessor<T>, TurbineError>)
        ensures
            final(self)@.finalized,
            final(self)@.capacity == old(self)@.capacity,
            final(self)@.declared == old(self)@.declared,
            final(self)@.position == old(self)@.position,
            final(self)@.until == old(self)@.until,
            final(self)@.cursors.len() == old(self)@.declared.len() + 1,
            old(self)@.finalized ==> final(self)@.cursors == old(self)@.cursors,
            !old(self)@.finalized ==> all_at_zero(final(self)@.cursors),
            final(self).ring() == old(self).ring(),
            token >= old(self)@.declared.len() ==> (handle matches Err(e) && e
                == TurbineError::UnknownToken),
            token < old(self)@.declared.len() ==> (handle matches Ok(ep) && {
                &&& ep.token() == token
                &&& ep.trails() == final(self)@.graph()[token as int]
                &&& ep.cursors() == final(self)@.cursors
                &&& ep.ring() == final(self).ring()
            }),
    {
        if !self.finalized {
            self.finalize_graph();
        }
        proof {
            use_type_invariant(&*self);
        }
        if token >= self.epb.len() {
            return Err(TurbineError::UnknownToken);
        }
        proof {
            let graph = self.graph@;
            let wanted = self@.graph();
            assert(rows(graph).len() == wanted.len());
            assert(rows(graph)[token as int] == graph[token as int]@);
            assert forall|k: int, i: int|
                0 <= k < graph.len() && 0 <= i < graph[k]@.len() implies (#[trigger] graph[k]@[i])
                < self.cursors@.len() by {
                assert(rows(graph)[k] == wanted[k]);
                let row = rows(self.epb@)[k];
                if row.len() > 0 {
                    assert(row[i] < self.epb@.len());
                }
            }
        }
        Ok(
            EventProcessor::<T>::new(
                self.ring.clone(),
                self.graph.clone(),
                self.cursors.clone(),
                token,
            ),
        )
    }

    /// Turns the declarations into the frozen graph and makes the cursors:
    /// one for the producer, then one for each consumer, all at zero. Row `k`
    /// of the graph lists the cursors that consumer `k` trails.
    fn finalize_graph(&mut self)
        requires
            !old(self)@.finalized,
        ensures
            final(self)@ == (TurbineView {
                finalized: true,
                cursors: final(self)@.cursors,
                ..old(self)@
            }),
            all_at_zero(final(self)@.cursors),
            final(self).ring() == old(self).ring(),
    {
        proof {
            use_type_invariant(&*self);
        }
        let mut eps: Vec<Vec<usize>> = Vec::with_capacity(self.epb.len());
        let mut cursors: Vec<Padded64> = Vec::new();

        cursors.push(Padded64::new(0));

        let mut k: usize = 0;
        while k < self.epb.len()
            invariant
                k <= self.epb@.len(),
                *self == *old(self),
                closed_under(rows(self.epb@)),
                eps@.len() == k,
                cursors@.len() == k + 1,
                all_at_zero(cursors@),
                forall|j: int| 0 <= j < k ==> (#[trigger] eps@[j])@ == upstream_of(self.epb@[j]@),
            decreases self.epb@.len() - k,
        {
            let node = &self.epb[k];
            let mut deps: Vec<usize> = Vec::with_capacity(node.len());
            if node.len() == 0 {
                deps.push(0);
                assert(deps@ =~= upstream_of(node@));
            } else {
                let mut i: usize = 0;
                while i < node.len()
                    invariant
                        i <= node@.len(),
                        k < self.epb@.len(),
                        node == self.epb@[k as int],
                        closed_under(rows(self.epb@)),
                        deps@.len() == i,
                        forall|j: int| 0 <= j < i ==> (#[trigger] deps@[j]) == node@[j] + 1,
                    decreases node@.len() - i,
                {
                    assert(rows(self.epb@)[k as int][i as int] < self.epb@.len());
                    assert(self.epb@.len() == self.epb.len());
                    deps.push(node[i] + 1);
                    i = i + 1;
                }
                assert(deps@ =~= upstream_of(node@));
            }
            eps.push(deps);
            cursors.push(Padded64::new(0));
            k = k + 1;
        }

        proof {
            assert(rows(eps@) =~= self@.graph());
        }
        self.graph = Arc::new(eps);
        self.cursors = Arc::new(cursors);
        self.finalized = true;
    }

    /// Publishes `data` if the slot of the next record is free, and gives it
    /// back if not.
    ///
    /// The record goes into the slot of the current position; only then the
    /// position moves on and is stored into the producer's cursor, which is
    /// what lets the consumers at the record. All publishing goes through the
    /// one thread that owns the `Turbine`.
    ///
    /// The slot is not free while the slowest consumer is a whole ring
    /// behind, and never once `u64::MAX` records were published.
    pub fn write(&mut self, data: T) -> (done: Result<(), T>)
        requires
            old(self)@.finalized,
        ensures
            old(self)@.position == u64::MAX ==> done == Err::<(), T>(data) && final(self)@ == old(
                self,
            )@,
            old(self)@.position < u64::MAX ==> exists|least: u64|
                least_observed(least, old(self)@.consumers()) && #[trigger] old(self)@.published(
                    least,
                    done is Ok,
                    final(self)@,
                ),
            done matches Err(back) ==> back == data,
            final(self).ring() == old(self).ring(),
    {
        proof {
            use_type_invariant(&*self);
            crate::sequence::lemma_mask_is_mod(self.current_pos, self.size);
        }
        if self.current_pos == u64::MAX {
            return Err(data);
        }
        let free = self.can_write();
        let ghost tested = self@;
        let ghost least = choose|least: u64|
            least_observed(least, old(self)@.consumers()) && #[trigger] old(self)@.tested(
                least,
                free,
                tested,
            );
        proof {
            use_type_invariant(&*self);
            crate::sequence::lemma_mask_is_mod(self.current_pos, self.size);
        }
        if !free {
            proof {
                assert(old(self)@.published(least, false, self@));
            }
            return Err(data);
        }
        let write_pos = self.current_pos & self.mask;
        let (mut ring, handle) = self.ring.acquire_write();
        ring.write(write_pos as usize, data);
        handle.release_write(ring);

        self.current_pos += 1;
        self.publish();
        proof {
            assert(old(self)@.published(least, true, self@));
        }
        Ok(())
    }

    /// Stores the position into the producer's cursor.
    fn publish(&self)
        requires
            self@.finalized,
    {
        proof {
            use_type_invariant(self);
        }
        self.cursors[0].store(self.current_pos);
    }

    /// The number of records published so far, which is the sequence number
    /// of the next one.
    pub fn current_pos(&self) -> (position: u64)
        ensures
            position == self@.position,
    {
        self.current_pos
    }

    /// The cursor at `index`: the producer's at zero, that of consumer `k` at
    /// `k + 1`. There is none before the graph is frozen.
    pub fn cursor(&self, index: usize) -> (cursor: Option<&Padded64>)
        ensures
            index < self@.cursors.len() ==> cursor == Some(&self@.cursors[index as int]),
            index >= self@.cursors.len() ==> cursor is None,
    {
        if index < self.cursors.len() {
            Some(&self.cursors[index])
        } else {
            None
        }
    }

    /// Tells whether the slot of the next record is free, and keeps in mind
    /// how far the producer may go before it has to ask again.
    ///
    /// While the producer is off the slot that it kept in mind, the answer is
    /// yes and no cursor is read. On that slot it reads the cursors of all
    /// consumers once and answers by the least of them.
    pub fn can_write(&mut self) -> (free: bool)
        ensures
            exists|least: u64|
                least_observed(least, old(self)@.consumers()) && #[trigger] old(self)@.tested(
                    least,
                    free,
                    final(self)@,
                ),
            final(self).ring() == old(self).ring(),
    {
        proof {
            use_type_invariant(&*self);
            crate::sequence::lemma_mask_is_mod(self.current_pos, self.size);
        }
        if self.until != (self.current_pos & self.mask) {
            proof {
                let observed = Seq::new(self@.consumers(), |i: int| 0u64);
                assert(least_observed(min_cursor(observed), self@.consumers()));
                assert(self@.tested(min_cursor(observed), true, self@));
            }
            return true;
        }
        let least = self.least_consumer();
        let outcome = check_admission(self.current_pos, self.until, self.size, least);
        self.until = outcome.until;
        proof {
            assert(old(self)@.tested(least, outcome.admitted, self@));
        }
        outcome.admitted
    }

    /// Reads the cursor of every consumer once and returns the least of what
    /// it read, `u64::MAX` if there is no consumer.
    fn least_consumer(&self) -> (least: u64)
        ensures
            least_observed(least, self@.consumers()),
    {
        let mut least: u64 = u64::MAX;
        let ghost mut observed: Seq<u64> = Seq::empty();
        let mut i: usize = 1;
        while i < self.cursors.len()
            invariant
                1 <= i,
                i <= self.cursors@.len() || (self.cursors@.len() == 0 && i == 1),
                observed.len() == i - 1,
                least == min_cursor(observed),
            decreases self.cursors@.len() - i,
        {
            let cursor = self.cursors[i].load();
            proof {
                assert(observed.push(cursor).drop_last() == observed);
                observed = observed.push(cursor);
            }
            if cursor < least {
                least = cursor;
            }
            i = i + 1;
        }
        proof {
            if self.cursors@.len() == 0 {
                assert(observed.len() == 0);
            }
            assert(observed.len() == self@.consumers());
        }
        least
    }
}

} // verus!
