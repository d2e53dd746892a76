//! The consumer side: a handle that reads batches off the ring and moves its
//! cursor behind the cursors it trails.

use vstd::prelude::*;
use vstd::rwlock::RwLock;
use std::sync::Arc;
use crate::paddedatomics::Padded64;
use crate::ringbuffer::HasCapacity;
use crate::ringbuffer::RingBuffer;
use crate::ringbuffer::Slot;
use crate::sequence::plan;
use crate::sequence::valid_capacity;
use crate::sequence::Batch;
use crate::waitstrategy::WaitStrategy;

verus! {

/// Why a consumer came back from `start`.
#[derive(Clone, Copy, Debug, PartialEq, Eq, Structural)]
pub enum Halt {
    /// The callback asked to stop.
    Stopped,
    /// Nothing more was there to read when the wait strategy gave up.
    Starved,
}

/// A consumer of the ring.
///
/// The handle shares the ring, the cursors and the dependency graph with the
/// coordinator that made it. Its token says which consumer it is: cursor
/// `token + 1` is its own, and row `token` of the graph lists the cursors that
/// it trails. A handle is made on one thread and may be moved to another,
/// where `start` runs it.
pub struct EventProcessor<T> {
    graph: Arc<Vec<Vec<usize>>>,
    cursors: Arc<Vec<Padded64>>,
    token: usize,
    ring: Arc<RwLock<RingBuffer<T>, HasCapacity>>,
}

/// A graph and a vector of cursors belong together when there is one cursor
/// more than there are consumers and every entry of the graph names a cursor.
pub open spec fn graph_fits(graph: Seq<Vec<usize>>, cursors: nat) -> bool {
    &&& cursors == graph.len() + 1
    &&& forall|k: int, i: int|
        0 <= k < graph.len() && 0 <= i < graph[k]@.len() ==> (#[trigger] graph[k]@[i]) < cursors
}

impl<T> EventProcessor<T> {
    #[verifier::type_invariant]
    spec fn well_formed(self) -> bool {
        &&& self.token < self.graph@.len()
        &&& graph_fits(self.graph@, self.cursors@.len())
        &&& valid_capacity(self.ring.pred().capacity as int)
    }

    /// The consumer that the handle stands for.
    pub closed spec fn token(&self) -> usize {
        self.token
    }

    /// The cursors that the handle reads and, for its own, writes.
    pub closed spec fn cursors(&self) -> Seq<Padded64> {
        self.cursors@
    }

    /// The cursors that the consumer trails, as positions in `cursors()`.
    pub closed spec fn trails(&self) -> Seq<usize> {
        self.graph@[self.token as int]@
    }

    /// The lock that guards the ring which the handle reads.
    pub closed spec fn ring(&self) -> RwLock<RingBuffer<T>, HasCapacity> {
        *self.ring
    }

    /// `deps` are the cursors that the consumer trails, in the order of
    /// `trails()`.
    pub open spec fn trailed_by(&self, deps: Seq<&Padded64>) -> bool {
        &&& deps.len() == self.trails().len()
        &&& forall|i: int|
            0 <= i < deps.len() ==> *(#[trigger] deps[i]) == self.cursors()[self.trails()[i] as int]
    }

    /// A strategy made for this ring was asked how far the consumer may read
    /// beyond `position`, given the cursors that it trails, and reported
    /// nothing.
    pub open spec fn found_nothing<W: WaitStrategy>(
        &self,
        strategy: W,
        position: u64,
        deps: Vec<&Padded64>,
    ) -> bool {
        &&& strategy.ring_size() == self.ring().pred().capacity
        &&& self.trailed_by(deps@)
        &&& call_ensures(W::wait_for, (&strategy, position, &deps), None)
    }
}

impl<T: Slot> EventProcessor<T> {
    /// Makes the handle of consumer `token` over a finalized graph.
    ///
    /// Coordinators call this from `ep_finalize`; there is little reason to
    /// call it from elsewhere.
    pub fn new(
        ring: Arc<RwLock<RingBuffer<T>, HasCapacity>>,
        graph: Arc<Vec<Vec<usize>>>,
        cursors: Arc<Vec<Padded64>>,
        token: usize,
    ) -> (ep: EventProcessor<T>)
        requires
            token < graph@.len(),
            graph_fits(graph@, cursors@.len()),
            valid_capacity(ring.pred().capacity as int),
        ensures
            ep.token() == token,
            ep.cursors() == cursors@,
            ep.trails() == graph@[token as int]@,
            ep.ring() == *ring,
    {
        EventProcessor { graph, cursors, token, ring }
    }

    /// Reads the ring until the callback asks to stop or the wait strategy
    /// finds nothing more to read.
    ///
    /// Each round asks the strategy how far the consumer may read, hands the
    /// slots in between to the callback as one batch (one slice, or two where
    /// the batch runs over the end of the ring), and only then moves the
    /// consumer's cursor, so that the producer keeps off the slots while the
    /// callback reads them. The callback answers `Ok` to go on and `Err` to
    /// stop; a batch is always handed over in full.
    ///
    /// A consumer that comes back starved has lost nothing: the next call
    /// takes up where this one ended.
    #[verifier::loop_isolation(false)]
    pub fn start<F, W: WaitStrategy>(&self, mut f: F) -> (halt: Halt) where
        F: FnMut(&[T]) -> Result<(), ()>,

        requires
            forall|data: &[T]| call_requires(f, (data,)),
        ensures
            halt == Halt::Stopped ==> exists|data: &[T]| call_ensures(f, (data,), Err(())),
            halt == Halt::Starved ==> exists|strategy: W, position: u64, deps: Vec<&Padded64>|
                #[trigger] self.found_nothing(strategy, position, deps),
    {
        proof {
            use_type_invariant(self);
        }
        let ghost callback = f;
        let capacity = self.capacity();
        let wait_strategy: W = W::new(capacity);
        let deps = self.upstream();
        let mut internal_cursor = self.position();

        loop
            invariant
                capacity == self.ring.pred().capacity,
                valid_capacity(capacity as int),
                wait_strategy.ring_size() == capacity,
                self.trailed_by(deps@),
                forall|data: &[T]| call_requires(f, (data,)),
                same_contract(callback, f),
            decreases u64::MAX - internal_cursor,
        {
            match wait_strategy.wait_for(internal_cursor, &deps) {
                None => {
                    proof {
                        assert(self.found_nothing(wait_strategy, internal_cursor, deps));
                    }
                    return Halt::Starved;
                },
                Some(available) => {
                    let batch = plan(internal_cursor, available, capacity);
                    let ghost asked = f;
                    let handle = self.ring.acquire_read();
                    let stop = deliver(handle.borrow(), batch, &mut f);
                    handle.release_read();

                    internal_cursor = available;
                    self.release(internal_cursor);
                    if stop {
                        proof {
                            let (head, first, tail, second) = choose|
                                head: &[T],
                                first: Result<(), ()>,
                                tail: &[T],
                                second: Result<(), ()>,
                            |
                                handed_over(
                                    asked,
                                    handle.view()@,
                                    batch,
                                    head,
                                    first,
                                    tail,
                                    second,
                                    stop,
                                );
                            if first is Err {
                                assert(first == Err::<(), ()>(first->Err_0));
                                assert(call_ensures(asked, (head,), Err(())));
                                assert(call_ensures(callback, (head,), Err(())));
                            } else {
                                assert(second == Err::<(), ()>(second->Err_0));
                                assert(call_ensures(asked, (tail,), Err(())));
                                assert(call_ensures(callback, (tail,), Err(())));
                            }
                        }
                        return Halt::Stopped;
                    }
                },
            }
        }
    }

    /// The capacity of the ring.
    fn capacity(&self) -> (capacity: usize)
        ensures
            capacity == self.ring.pred().capacity,
    {
        let handle = self.ring.acquire_read();
        let capacity = handle.borrow().get_capacity();
        handle.release_read();
        capacity
    }

    /// The cursors that this consumer trails, in the order of its row of the
    /// graph.
    fn upstream(&self) -> (deps: Vec<&Padded64>)
        ensures
            self.trailed_by(deps@),
    {
        proof {
            use_type_invariant(self);
        }
        let dep_eps = &self.graph[self.token];
        let mut deps: Vec<&Padded64> = Vec::with_capacity(dep_eps.len());
        let mut i: usize = 0;
        while i < dep_eps.len()
            invariant
                i <= dep_eps.len(),
                deps@.len() == i,
                self.token < self.graph@.len(),
                graph_fits(self.graph@, self.cursors@.len()),
                dep_eps == self.graph@[self.token as int],
                forall|j: int|
                    0 <= j < i ==> *(#[trigger] deps@[j]) == self.cursors@[dep_eps@[j] as int],
            decreases dep_eps.len() - i,
        {
            deps.push(&self.cursors[dep_eps[i]]);
            i = i + 1;
        }
        deps
    }

    /// Reads this consumer's own cursor.
    fn position(&self) -> (position: u64) {
        proof {
            use_type_invariant(self);
            assert(self.cursors.len() == self.graph@.len() + 1);
        }
        self.cursors[self.token + 1].load()
    }

    /// Moves this consumer's own cursor to `position`, which hands every
    /// slot below it back to the producer.
    fn release(&self, position: u64) {
        proof {
            use_type_invariant(self);
            assert(self.cursors.len() == self.graph@.len() + 1);
        }
        self.cursors[self.token + 1].store(position);
    }
}

/// What `deliver` does with a batch, for given answers of the callback: the
/// callback gets `head`, the slots `from..to`, and answers `first`; where the
/// batch has a second slice it then gets `tail`, the slots `0..wrap`, and
/// answers `second`; and `stop` tells whether one of the answers was to stop.
pub open spec fn handed_over<T, F: FnMut(&[T]) -> Result<(), ()>>(
    f: F,
    ring: Seq<T>,
    batch: Batch,
    head: &[T],
    first: Result<(), ()>,
    tail: &[T],
    second: Result<(), ()>,
    stop: bool,
) -> bool {
    &&& head@ == ring.subrange(batch.from as int, batch.to as int)
    &&& tail@ == ring.subrange(0, batch.wrap as int)
    &&& call_ensures(f, (head,), first)
    &&& batch.wrap > 0 ==> call_ensures(f, (tail,), second)
    &&& stop == (first is Err || (batch.wrap > 0 && second is Err))
}

/// The callback `after` accepts what `before` accepted and answers as `before`
/// might have answered: a callback keeps its contract from call to call,
/// whatever it keeps in mind between them.
pub open spec fn same_contract<T, F: FnMut(&[T]) -> Result<(), ()>>(before: F, after: F) -> bool {
    &&& forall|data: &[T]| call_requires(before, (data,)) ==> call_requires(after, (data,))
    &&& forall|data: &[T], answer: Result<(), ()>|
        call_ensures(after, (data,), answer) ==> call_ensures(before, (data,), answer)
}

/// Hands the slices of `batch` to the callback, in order: the slots
/// `from..to`, then the slots `0..wrap` if there are any. Both slices are
/// handed over whatever the callback answers to the first, and the result
/// tells whether one of the answers was to stop.
pub fn deliver<T, F>(ring: &RingBuffer<T>, batch: Batch, f: &mut F) -> (stop: bool) where
    F: FnMut(&[T]) -> Result<(), ()>,

    requires
        batch.from <= batch.to <= ring@.len(),
        batch.wrap <= ring@.len(),
        forall|data: &[T]| call_requires(*old(f), (data,)),
    ensures
        same_contract(*old(f), *final(f)),
        exists|head: &[T], first: Result<(), ()>, tail: &[T], second: Result<(), ()>|
            handed_over(*old(f), ring@, batch, head, first, tail, second, stop),
{
    let head = ring.get(batch.from, batch.to);
    let first = f(head);
    let tail = ring.get(0, batch.wrap);
    if batch.wrap > 0 {
        let second = f(tail);
        let stop = first.is_err() || second.is_err();
        assert(handed_over(*old(f), ring@, batch, head, first, tail, second, stop));
        stop
    } else {
        let stop = first.is_err();
        assert(handed_over(*old(f), ring@, batch, head, first, tail, Ok(()), stop));
        stop
    }
}

} // verus!
