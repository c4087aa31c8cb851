//! A bounded pool of work in flight, refilled from a supply as work
//! completes.
//!
//! The pool starts nothing itself. It counts what is in flight, hands out the
//! next item only while a slot is free, and takes back the slot when its
//! caller reports a completion, in whatever order the work completes.
//!
//! The pool knows no timeouts. An item whose completion is never reported
//! keeps its slot for good, and a pool all of whose slots are so taken starts
//! nothing more.
use vstd::prelude::*;

verus! {

/// The state of a pool: the items that wait, the last of them being the next
/// to start; the number of items in flight; and the bound on that number.
pub struct PoolModel<T> {
    pub supply: Seq<T>,
    pub in_flight: nat,
    pub capacity: nat,
}

/// What the caller of a pool does, one step at a time.
pub enum PoolInput<T> {
    /// It asks for the next item.
    Poll,
    /// It reports that an item in flight has completed, and hands in the
    /// items that are to wait in its place.
    Released { requeued: Seq<T> },
    /// It hands in one more item that is to wait.
    PutBack { item: T },
}

impl<T> PoolModel<T> {
    /// No more items are in flight than the bound allows, and the bound
    /// allows at least one.
    pub open spec fn wf(self) -> bool {
        self.in_flight <= self.capacity && self.capacity >= 1
    }

    /// An item waits and a slot is free.
    pub open spec fn can_admit(self) -> bool {
        self.supply.len() > 0 && self.in_flight < self.capacity
    }

    /// Nothing waits and nothing is in flight.
    pub open spec fn is_drained(self) -> bool {
        self.supply.len() == 0 && self.in_flight == 0
    }

    /// The state after the caller asked for the next item: where an item can
    /// be admitted, the last waiting item has left the supply and is in
    /// flight.
    pub open spec fn after_poll(self) -> PoolModel<T> {
        if self.can_admit() {
            PoolModel { supply: self.supply.drop_last(), in_flight: self.in_flight + 1, ..self }
        } else {
            self
        }
    }

    /// The state after an item in flight completed and `requeued` were handed
    /// in: a slot is free again, and the items handed in wait before those
    /// that waited already, so that they start after them, the last of them
    /// first. A completion reported while nothing is in flight changes
    /// nothing.
    pub open spec fn after_release(self, requeued: Seq<T>) -> PoolModel<T> {
        if self.in_flight == 0 {
            self
        } else {
            PoolModel {
                supply: requeued + self.supply,
                in_flight: (self.in_flight - 1) as nat,
                ..self
            }
        }
    }

    /// The state after `item` was handed in: it waits before all items that
    /// waited already, so that it starts after them.
    pub open spec fn after_put_back(self, item: T) -> PoolModel<T> {
        PoolModel { supply: seq![item] + self.supply, ..self }
    }

    /// The state after one input.
    pub open spec fn step(self, input: PoolInput<T>) -> PoolModel<T> {
        match input {
            PoolInput::Poll => self.after_poll(),
            PoolInput::Released { requeued } => self.after_release(requeued),
            PoolInput::PutBack { item } => self.after_put_back(item),
        }
    }

    /// The state after a sequence of inputs, taken in order.
    pub open spec fn run(self, inputs: Seq<PoolInput<T>>) -> PoolModel<T>
        decreases inputs.len(),
    {
        if inputs.len() == 0 {
            self
        } else {
            self.run(inputs.drop_last()).step(inputs.last())
        }
    }
}

/// What a pool answers to the question for the next item.
#[derive(Debug)]
pub enum Admission<T> {
    /// The item is to be started. It counts as in flight from now on.
    Start(T),
    /// No item can start; the caller waits for one in flight to complete,
    /// whichever completes first.
    Await,
    /// Nothing waits and nothing is in flight.
    Finished,
}

/// A pool of at most `capacity` items in flight.
pub struct Pool<T> {
    supply: Vec<T>,
    in_flight: usize,
    capacity: usize,
}

impl<T> View for Pool<T> {
    type V = PoolModel<T>;

    closed spec fn view(&self) -> PoolModel<T> {
        PoolModel {
            supply: self.supply@,
            in_flight: self.in_flight as nat,
            capacity: self.capacity as nat,
        }
    }
}

impl<T> Pool<T> {
    /// The state of the pool is well formed.
    pub open spec fn wf(&self) -> bool {
        self@.wf()
    }

    /// A pool of at most `capacity` items in flight that starts the items of
    /// `supply` from the last to the first. There is no pool without a slot.
    pub fn new(capacity: usize, supply: Vec<T>) -> (pool: Option<Pool<T>>)
        ensures
            pool is Some <==> capacity >= 1,
            pool matches Some(p) ==> p.wf() && p@ == (PoolModel {
                supply: supply@,
                in_flight: 0,
                capacity: capacity as nat,
            }),
    {
        if capacity == 0 {
            return None;
        }
        Some(Pool::with_slots(capacity, supply))
    }

    /// A pool of at most `capacity` items in flight, `capacity` being at least
    /// one, that starts the items of `supply` from the last to the first.
    pub fn with_slots(capacity: usize, supply: Vec<T>) -> (pool: Pool<T>)
        requires
            capacity >= 1,
        ensures
            pool.wf(),
            pool@ == (PoolModel { supply: supply@, in_flight: 0, capacity: capacity as nat }),
    {
        Pool { supply, in_flight: 0, capacity }
    }

    /// Number of items in flight.
    pub fn in_flight(&self) -> (in_flight: usize)
        ensures
            in_flight == self@.in_flight,
    {
        self.in_flight
    }

    /// The bound on the number of items in flight.
    pub fn capacity(&self) -> (capacity: usize)
        ensures
            capacity == self@.capacity,
    {
        self.capacity
    }

    /// Number of items that wait.
    pub fn waiting(&self) -> (waiting: usize)
        ensures
            waiting == self@.supply.len(),
    {
        self.supply.len()
    }

    /// Hands out the last waiting item while a slot is free. Else tells the
    /// caller to wait for a completion, or, with nothing in flight, that the
    /// pool is drained.
    pub fn poll(&mut self) -> (admission: Admission<T>)
        requires
            old(self).wf(),
        ensures
            final(self).wf(),
            final(self)@ == old(self)@.after_poll(),
            match admission {
                Admission::Start(item) => old(self)@.can_admit() && item == old(
                    self,
                )@.supply.last(),
                Admission::Await => !old(self)@.can_admit() && old(self)@.in_flight > 0,
                Admission::Finished => old(self)@.is_drained(),
            },
    {
        if self.in_flight < self.capacity {
            match self.supply.pop() {
                Some(item) => {
                    self.in_flight = self.in_flight + 1;
                    return Admission::Start(item);
                },
                None => {},
            }
        }
        if self.in_flight > 0 {
            Admission::Await
        } else {
            Admission::Finished
        }
    }

    /// Frees the slot of an item that has completed. Tells whether there was
    /// an item in flight; where there was none, nothing changes.
    pub fn release(&mut self) -> (released: bool)
        requires
            old(self).wf(),
        ensures
            final(self).wf(),
            final(self)@ == old(self)@.after_release(Seq::empty()),
            released == (old(self)@.in_flight > 0),
    {
        if self.in_flight == 0 {
            return false;
        }
        self.in_flight = self.in_flight - 1;
        assert(Seq::<T>::empty() + self@.supply =~= self@.supply);
        true
    }

    /// Lets `item` wait before all items that wait already, so that it starts
    /// after them.
    pub fn put_back(&mut self, item: T)
        requires
            old(self).wf(),
        ensures
            final(self).wf(),
            final(self)@ == old(self)@.after_put_back(item),
    {
        self.supply.insert(0, item);
        assert(self@.supply =~= seq![item] + old(self)@.supply);
    }
}

/// One input keeps a well-formed state well formed and leaves the bound as it
/// is.
pub proof fn lemma_step_preserves_wf<T>(state: PoolModel<T>, input: PoolInput<T>)
    requires
        state.wf(),
    ensures
        state.step(input).wf(),
        state.step(input).capacity == state.capacity,
{
}

/// The bound on concurrency: whatever the supply, and in whatever order and
/// at whatever moments work completes, after every input the number of items
/// in flight is at most the capacity.
pub proof fn lemma_occupancy_bounded<T>(state: PoolModel<T>, inputs: Seq<PoolInput<T>>)
    requires
        state.wf(),
    ensures
        forall|k: int|
            0 <= k <= inputs.len() ==> (#[trigger] state.run(inputs.take(k))).in_flight
                <= state.capacity,
        state.run(inputs).wf(),
        state.run(inputs).capacity == state.capacity,
    decreases inputs.len(),
{
    if inputs.len() > 0 {
        let earlier = inputs.drop_last();
        lemma_occupancy_bounded(state, earlier);
        lemma_step_preserves_wf(state.run(earlier), inputs.last());
    }
    assert forall|k: int| 0 <= k <= inputs.len() implies (#[trigger] state.run(
        inputs.take(k),
    )).in_flight <= state.capacity by {
        if k < inputs.len() {
            assert(inputs.take(k) =~= inputs.drop_last().take(k));
        } else {
            assert(inputs.take(k) =~= inputs);
        }
    }
}

} // verus!
