//! The fetch scheduler: admission of tasks under a fixed bound on the number
//! of fetches in flight, and the single point at which the reply to a fetch is
//! dispatched.
//!
//! The scheduler performs no fetch itself. Its caller asks for the next
//! action, carries it out, and reports each completed fetch back; all that is
//! decided, is decided here.
use crate::pool::{Admission, Pool, PoolModel};
use crate::stats::FetchOutcome;
use crate::task::{lemma_split_partitions, FetchTask, SplitOutcome, TaskModel};
use vstd::prelude::*;

verus! {

/// How the upstream source classified a failed fetch.
#[derive(Clone, Copy, Debug, PartialEq, Eq, Structural)]
pub enum Strategy {
    /// The failure is permanent.
    NoRetry,
    /// The range asked for was too wide; a narrower one may succeed.
    RetrySmaller,
}

/// A fixed-delay throttle: each request to the upstream source is preceded by
/// the same pause.
#[derive(Clone, Copy, Debug, PartialEq, Eq, Structural)]
pub struct RateLimiter {
    /// The pause before each request, in milliseconds.
    pub spacing_ms: u64,
}

impl RateLimiter {
    /// A throttle with the given pause.
    pub fn new(spacing_ms: u64) -> (limiter: RateLimiter)
        ensures
            limiter.spacing_ms == spacing_ms,
    {
        RateLimiter { spacing_ms }
    }

    /// How long the caller has to stay suspended immediately before its next
    /// request, in milliseconds. The pause does not depend on earlier requests.
    pub fn wait(&self) -> (delay_ms: u64)
        ensures
            delay_ms == self.spacing_ms,
    {
        self.spacing_ms
    }
}

impl Default for RateLimiter {
    /// The pause that the upstream source has been found to tolerate.
    fn default() -> (limiter: RateLimiter)
        ensures
            limiter.spacing_ms == 50,
    {
        RateLimiter { spacing_ms: 50 }
    }
}

/// What the caller of a scheduler does, one step at a time.
pub enum SchedulerInput {
    /// It asks what to do next.
    Poll,
    /// It reports that the fetch of `task` has completed with `reply`.
    Completed { task: TaskModel, reply: Result<u64, Strategy> },
    /// It reports that the events of the last successful fetch are stored.
    Stored,
}

/// The state of a scheduler: the tasks that wait, the last of them being the
/// next to start; the number of fetches in flight and the bound on it; and
/// whether events of a completed fetch are yet to be stored.
pub struct SchedulerModel {
    pub supply: Seq<TaskModel>,
    pub in_flight: nat,
    pub capacity: nat,
    pub unstored: bool,
}

impl SchedulerModel {
    /// The pool of tasks within the scheduler.
    pub open spec fn pool(self) -> PoolModel<TaskModel> {
        PoolModel { supply: self.supply, in_flight: self.in_flight, capacity: self.capacity }
    }

    /// The scheduler around the pool `pool`.
    pub open spec fn around(pool: PoolModel<TaskModel>, unstored: bool) -> SchedulerModel {
        SchedulerModel {
            supply: pool.supply,
            in_flight: pool.in_flight,
            capacity: pool.capacity,
            unstored,
        }
    }

    /// No more fetches are in flight than the bound allows, the bound allows
    /// at least one, and every waiting task covers at least one day.
    pub open spec fn wf(self) -> bool {
        self.pool().wf() && tasks_wf(self.supply)
    }

    /// A task can start: nothing is yet to be stored, a task waits, and a
    /// slot is free.
    pub open spec fn can_start(self) -> bool {
        !self.unstored && self.pool().can_admit()
    }

    /// Nothing is yet to be stored, nothing waits and nothing is in flight.
    pub open spec fn is_finished(self) -> bool {
        !self.unstored && self.pool().is_drained()
    }

    /// The state after the caller asked what to do next: where a task can
    /// start, the last waiting task has left the supply and is in flight.
    /// While events are yet to be stored, no task starts.
    pub open spec fn after_poll(self) -> SchedulerModel {
        if self.unstored {
            self
        } else {
            Self::around(self.pool().after_poll(), false)
        }
    }

    /// The state after the fetch of `task` completed with `reply`: the slot
    /// is free, the halves of a task to be retried on a narrower range wait
    /// behind the tasks that waited already, and the events of a successful
    /// fetch are yet to be stored. A completion reported while nothing is in
    /// flight changes nothing.
    pub open spec fn after_completion(self, task: TaskModel, reply: Result<u64, Strategy>) -> SchedulerModel {
        if self.in_flight == 0 {
            self
        } else {
            Self::around(
                self.pool().after_release(requeued(task, reply)),
                self.unstored || reply is Ok,
            )
        }
    }

    /// The state after the caller reported the events stored.
    pub open spec fn after_stored(self) -> SchedulerModel {
        SchedulerModel { unstored: false, ..self }
    }

    /// The state after one input.
    pub open spec fn step(self, input: SchedulerInput) -> SchedulerModel {
        match input {
            SchedulerInput::Poll => self.after_poll(),
            SchedulerInput::Completed { task, reply } => self.after_completion(task, reply),
            SchedulerInput::Stored => self.after_stored(),
        }
    }

    /// The state after a sequence of inputs, taken in order.
    pub open spec fn run(self, inputs: Seq<SchedulerInput>) -> SchedulerModel
        decreases inputs.len(),
    {
        if inputs.len() == 0 {
            self
        } else {
            self.run(inputs.drop_last()).step(inputs.last())
        }
    }
}

/// Every task that an input reports as completed covers at least one day.
pub open spec fn inputs_wf(inputs: Seq<SchedulerInput>) -> bool {
    forall|i: int|
        0 <= i < inputs.len() ==> (#[trigger] inputs[i] matches SchedulerInput::Completed {
            task,
            ..
        } ==> task.wf())
}

/// The tasks that a completed fetch puts back: the two halves of a task that
/// is to be retried on a narrower range and can be split, else none. The
/// earlier half stands last, and so starts first.
pub open spec fn requeued(task: TaskModel, reply: Result<u64, Strategy>) -> Seq<TaskModel> {
    if reply == Err::<u64, Strategy>(Strategy::RetrySmaller) && task.can_split() {
        seq![task.later(), task.earlier()]
    } else {
        Seq::empty()
    }
}

/// The greatest number of fetches that a task can come to: one for itself,
/// and where it is bisected, those of its halves.
pub open spec fn work(task: TaskModel) -> int {
    2 * task.span() - 1
}

/// The work of all of `tasks` together.
pub open spec fn backlog(tasks: Seq<TaskModel>) -> int
    decreases tasks.len(),
{
    if tasks.len() == 0 {
        0
    } else {
        backlog(tasks.drop_last()) + work(tasks.last())
    }
}

/// Every waiting task covers at least one day.
pub open spec fn tasks_wf(tasks: Seq<TaskModel>) -> bool {
    forall|i: int| 0 <= i < tasks.len() ==> (#[trigger] tasks[i]).wf()
}

/// What the caller has to do next.
#[derive(Debug)]
pub enum Action {
    /// Stay suspended for `delay_ms` milliseconds, then start the fetch of
    /// `task`. The task counts as in flight from now on.
    Start { task: FetchTask, delay_ms: u64 },
    /// Wait for a fetch in flight to complete, whichever completes first.
    Await,
    /// Store the events of the successful fetch that was last reported, and
    /// report them stored. Until then no task starts.
    Store,
    /// Nothing waits, nothing is in flight and nothing is yet to be stored.
    Finished,
}

/// What became of a completed fetch.
#[derive(Debug)]
pub enum Completion {
    /// The fetch delivered events. They are to be stored, and no task starts
    /// before they are reported stored.
    Persist { outcome: FetchOutcome },
    /// The fetch failed for good. The task is dropped and handed back for the
    /// warning.
    Dropped { task: FetchTask, outcome: FetchOutcome },
    /// The range was too wide. The two halves of the task now wait in the
    /// supply.
    Split { outcome: FetchOutcome },
    /// The range was too wide but is a single day already. The task cannot be
    /// fulfilled; it is dropped and handed back for the warning.
    Unfulfillable { task: FetchTask, outcome: FetchOutcome },
}

impl Completion {
    /// What the completion leaves for the statistics.
    pub open spec fn spec_outcome(self) -> FetchOutcome {
        match self {
            Completion::Persist { outcome } => outcome,
            Completion::Dropped { outcome, .. } => outcome,
            Completion::Split { outcome } => outcome,
            Completion::Unfulfillable { outcome, .. } => outcome,
        }
    }

    /// What the completion leaves for the statistics.
    pub fn outcome(&self) -> (outcome: FetchOutcome)
        ensures
            outcome == self.spec_outcome(),
    {
        match self {
            Completion::Persist { outcome } => *outcome,
            Completion::Dropped { outcome, .. } => *outcome,
            Completion::Split { outcome } => *outcome,
            Completion::Unfulfillable { outcome, .. } => *outcome,
        }
    }
}

/// What a fetch of `elapsed_ms` milliseconds that ended with `reply` leaves
/// for the statistics: the events it delivered, none on a failure, and whether
/// a narrower range was asked for.
pub open spec fn outcome_of(reply: Result<u64, Strategy>, elapsed_ms: u64) -> FetchOutcome {
    match reply {
        Ok(events) => FetchOutcome { success_count: events, elapsed_ms, was_split: false },
        Err(Strategy::NoRetry) => FetchOutcome { success_count: 0, elapsed_ms, was_split: false },
        Err(Strategy::RetrySmaller) => FetchOutcome {
            success_count: 0,
            elapsed_ms,
            was_split: true,
        },
    }
}

/// A pool of at most `capacity` fetches in flight, refilled from a supply of
/// waiting tasks as fetches complete.
pub struct Scheduler {
    pool: Pool<FetchTask>,
    limiter: RateLimiter,
    unstored: bool,
}

impl View for Scheduler {
    type V = SchedulerModel;

    closed spec fn view(&self) -> SchedulerModel {
        SchedulerModel {
            supply: Seq::new(self.pool@.supply.len(), |i: int| self.pool@.supply[i]@),
            in_flight: self.pool@.in_flight,
            capacity: self.pool@.capacity,
            unstored: self.unstored,
        }
    }
}

impl Scheduler {
    /// The state is well formed, and so is every waiting task.
    pub closed spec fn wf(&self) -> bool {
        &&& self.pool.wf()
        &&& forall|i: int|
            0 <= i < self.pool@.supply.len() ==> (#[trigger] self.pool@.supply[i]).wf()
    }

    /// The pause before each request, in milliseconds.
    pub closed spec fn spacing_ms(&self) -> u64 {
        self.limiter.spacing_ms
    }

    /// In a well-formed scheduler the bound on concurrency holds and every
    /// waiting task covers at least one day.
    pub proof fn lemma_wf(&self)
        requires
            self.wf(),
        ensures
            self@.wf(),
            self@.in_flight <= self@.capacity,
    {
    }

    /// A scheduler that holds at most `capacity` fetches in flight, pauses as
    /// `limiter` says before each, and starts the tasks of `supply` from the
    /// last to the first. There is no scheduler without a slot.
    pub fn new(capacity: usize, limiter: RateLimiter, supply: Vec<FetchTask>) -> (scheduler: Option<
        Scheduler,
    >)
        requires
            forall|i: int| 0 <= i < supply@.len() ==> (#[trigger] supply@[i]).wf(),
        ensures
            scheduler is Some <==> capacity >= 1,
            scheduler matches Some(s) ==> {
                &&& s.wf()
                &&& s@.supply == Seq::new(supply@.len(), |i: int| supply@[i]@)
                &&& s@.in_flight == 0
                &&& s@.capacity == capacity
                &&& !s@.unstored
                &&& s.spacing_ms() == limiter.spacing_ms
            },
    {
        match Pool::new(capacity, supply) {
            Some(pool) => Some(Scheduler { pool, limiter, unstored: false }),
            None => None,
        }
    }

    /// Number of fetches in flight.
    pub fn in_flight(&self) -> (in_flight: usize)
        ensures
            in_flight == self@.in_flight,
    {
        self.pool.in_flight()
    }

    /// The bound on the number of fetches in flight.
    pub fn capacity(&self) -> (capacity: usize)
        ensures
            capacity == self@.capacity,
    {
        self.pool.capacity()
    }

    /// Number of tasks that wait.
    pub fn waiting(&self) -> (waiting: usize)
        ensures
            waiting == self@.supply.len(),
    {
        self.pool.waiting()
    }

    /// Decides what the caller does next. While events are yet to be stored,
    /// they are to be stored first. Else, while a task waits and a slot is
    /// free, the last waiting task is started. Else the caller waits for a
    /// completion, or, with nothing in flight, is finished.
    pub fn next_action(&mut self) -> (action: Action)
        requires
            old(self).wf(),
        ensures
            final(self).wf(),
            final(self)@ == old(self)@.after_poll(),
            final(self).spacing_ms() == old(self).spacing_ms(),
            final(self)@.in_flight <= final(self)@.capacity,
            match action {
                Action::Store => old(self)@.unstored,
                Action::Start { task, delay_ms } => {
                    &&& old(self)@.can_start()
                    &&& task.wf()
                    &&& task@ == old(self)@.supply.last()
                    &&& delay_ms == old(self).spacing_ms()
                },
                Action::Await => {
                    &&& !old(self)@.unstored
                    &&& !old(self)@.can_start()
                    &&& old(self)@.in_flight > 0
                },
                Action::Finished => old(self)@.is_finished(),
            },
    {
        if self.unstored {
            return Action::Store;
        }
        let ghost waiting = self.pool@.supply;
        match self.pool.poll() {
            Admission::Start(task) => {
                assert(task == waiting[waiting.len() - 1]);
                assert(self@.supply =~= old(self)@.supply.drop_last());
                Action::Start { task, delay_ms: self.limiter.wait() }
            },
            Admission::Await => Action::Await,
            Admission::Finished => Action::Finished,
        }
    }

    /// Takes note that the events of the successful fetch that was last
    /// reported are stored. Tasks can start again.
    pub fn stored(&mut self)
        requires
            old(self).wf(),
        ensures
            final(self).wf(),
            final(self)@ == old(self)@.after_stored(),
            final(self).spacing_ms() == old(self).spacing_ms(),
    {
        self.unstored = false;
    }

    /// Takes note that the fetch of `task` has completed after `elapsed_ms`
    /// milliseconds with `reply`: the number of events delivered, or how the
    /// source classified the failure. The slot is freed. A task that is to be
    /// retried on a narrower range is bisected, and its halves wait in the
    /// supply behind the tasks that waited already; one of a single day cannot
    /// be fulfilled. After a success no task starts until the events are
    /// reported stored. A completion reported while nothing is in flight is
    /// not taken note of.
    pub fn complete(&mut self, task: FetchTask, reply: Result<u64, Strategy>, elapsed_ms: u64) -> (done:
        Option<Completion>)
        requires
            old(self).wf(),
            task.wf(),
        ensures
            final(self).wf(),
            final(self)@ == old(self)@.after_completion(task@, reply),
            final(self).spacing_ms() == old(self).spacing_ms(),
            final(self)@.in_flight <= final(self)@.capacity,
            done is None <==> old(self)@.in_flight == 0,
            done matches Some(completion) ==> {
                &&& completion.spec_outcome() == outcome_of(reply, elapsed_ms)
                &&& match completion {
                    Completion::Persist { .. } => reply is Ok,
                    Completion::Dropped { task: dropped, .. } => {
                        &&& reply == Err::<u64, Strategy>(Strategy::NoRetry)
                        &&& dropped == task
                    },
                    Completion::Split { .. } => {
                        &&& reply == Err::<u64, Strategy>(Strategy::RetrySmaller)
                        &&& task@.can_split()
                    },
                    Completion::Unfulfillable { task: dropped, .. } => {
                        &&& reply == Err::<u64, Strategy>(Strategy::RetrySmaller)
                        &&& !task@.can_split()
                        &&& dropped == task
                    },
                }
            },
    {
        if !self.pool.release() {
            return None;
        }
        assert(self@.supply =~= old(self)@.supply);
        assert(Seq::<TaskModel>::empty() + old(self)@.supply =~= old(self)@.supply);
        match reply {
            Ok(events) => {
                self.unstored = true;
                Some(
                    Completion::Persist {
                        outcome: FetchOutcome {
                            success_count: events,
                            elapsed_ms,
                            was_split: false,
                        },
                    },
                )
            },
            Err(Strategy::NoRetry) => Some(
                Completion::Dropped {
                    task,
                    outcome: FetchOutcome { success_count: 0, elapsed_ms, was_split: false },
                },
            ),
            Err(Strategy::RetrySmaller) => {
                let outcome = FetchOutcome { success_count: 0, elapsed_ms, was_split: true };
                match task.split() {
                    SplitOutcome::Children { earlier, later } => {
                        self.pool.put_back(earlier);
                        self.pool.put_back(later);
                        assert(self@.supply =~= seq![task@.later(), task@.earlier()] + old(
                            self,
                        )@.supply);
                        Some(Completion::Split { outcome })
                    },
                    SplitOutcome::Terminal { task } => Some(
                        Completion::Unfulfillable { task, outcome },
                    ),
                }
            },
        }
    }
}

/// One input keeps a well-formed state well formed and leaves the bound as it
/// is. While events are yet to be stored, asking for the next action starts
/// nothing.
pub proof fn lemma_step_preserves_wf(state: SchedulerModel, input: SchedulerInput)
    requires
        state.wf(),
        input matches SchedulerInput::Completed { task, .. } ==> task.wf(),
    ensures
        state.step(input).wf(),
        state.step(input).capacity == state.capacity,
        state.unstored ==> state.after_poll() == state,
{
    match input {
        SchedulerInput::Completed { task, reply } => {
            if task.can_split() {
                lemma_split_partitions(task);
            }
        },
        _ => {},
    }
}

/// The bound on concurrency: whatever the supply, and in whatever order and
/// at whatever moments fetches complete, after every input the number of
/// fetches in flight is at most the capacity.
pub proof fn lemma_occupancy_bounded(state: SchedulerModel, inputs: Seq<SchedulerInput>)
    requires
        state.wf(),
        inputs_wf(inputs),
    ensures
        forall|k: int|
            0 <= k <= inputs.len() ==> (#[trigger] state.run(inputs.take(k))).in_flight
                <= state.capacity,
        state.run(inputs).wf(),
        state.run(inputs).capacity == state.capacity,
    decreases inputs.len(),
{
    if inputs.len() > 0 {
        let earlier = inputs.drop_last();
        lemma_occupancy_bounded(state, earlier);
        lemma_step_preserves_wf(state.run(earlier), inputs.last());
    }
    assert forall|k: int| 0 <= k <= inputs.len() implies (#[trigger] state.run(
        inputs.take(k),
    )).in_flight <= state.capacity by {
        if k < inputs.len() {
            assert(inputs.take(k) =~= inputs.drop_last().take(k));
        } else {
            assert(inputs.take(k) =~= inputs);
        }
    }
}

/// Fetching ends: a completed fetch puts back less work than the task it
/// took out of flight stood for, whatever the reply. So the work that waits
/// or is in flight shrinks with every completion, and a run over tasks of
/// `n` days in all completes after at most `2n - 1` fetches for each.
pub proof fn lemma_completion_reduces_work(task: TaskModel, reply: Result<u64, Strategy>)
    requires
        task.wf(),
    ensures
        0 <= backlog(requeued(task, reply)) < work(task),
        reply == Err::<u64, Strategy>(Strategy::RetrySmaller) && task.can_split() ==> backlog(
            requeued(task, reply),
        ) == work(task) - 1,
{
    let back = requeued(task, reply);
    if back.len() > 0 {
        lemma_split_partitions(task);
        assert(back.drop_last() =~= seq![task.later()]);
        assert(back.drop_last().drop_last() =~= Seq::<TaskModel>::empty());
        assert(backlog(back.drop_last().drop_last()) == 0);
        assert(backlog(back.drop_last()) == work(task.later()));
        assert(backlog(back) == work(task.later()) + work(task.earlier()));
    }
}

} // verus!
