//! Date-ranged fetch tasks and the range splitter.
//!
//! A task asks the upstream source for the bookings of one entity over a run
//! of consecutive days. When the source cannot answer for the whole run, the
//! task is bisected and each half is asked for on its own, until single days
//! are reached.
use vstd::arithmetic::power2::{lemma2_to64, lemma_pow2_unfold, pow2};
use vstd::prelude::*;

verus! {

/// What a [`FetchTask`] stands for: an entity, its upstream reference, and the
/// days `from, from + 1, .., to - 1`, counted as day numbers.
pub struct TaskModel {
    pub key: Seq<char>,
    pub external_ref: int,
    pub from: int,
    pub to: int,
}

impl TaskModel {
    /// A task covers at least one day.
    pub open spec fn wf(self) -> bool {
        self.from < self.to
    }

    /// Number of days covered.
    pub open spec fn span(self) -> int {
        self.to - self.from
    }

    /// The set of day numbers covered.
    pub open spec fn days(self) -> Set<int> {
        Set::new(|d: int| self.from <= d < self.to)
    }

    /// Only a task of more than one day can be bisected.
    pub open spec fn can_split(self) -> bool {
        self.span() > 1
    }

    /// First day of the later half. On an odd span the earlier half is the
    /// longer one.
    pub open spec fn split_day(self) -> int {
        self.from + (self.span() + 1) / 2
    }

    /// The earlier half of a bisection.
    pub open spec fn earlier(self) -> TaskModel {
        TaskModel { to: self.split_day(), ..self }
    }

    /// The later half of a bisection.
    pub open spec fn later(self) -> TaskModel {
        TaskModel { from: self.split_day(), ..self }
    }

    /// The task reached by bisecting repeatedly, taking at each step the later
    /// half where `path` holds `true` and the earlier half where it holds
    /// `false`.
    pub open spec fn descend(self, path: Seq<bool>) -> TaskModel
        decreases path.len(),
    {
        if path.len() == 0 {
            self
        } else if path[0] {
            self.later().descend(path.drop_first())
        } else {
            self.earlier().descend(path.drop_first())
        }
    }

    /// Every bisection along `path` is applied to a task that can be split.
    pub open spec fn splits_along(self, path: Seq<bool>) -> bool
        decreases path.len(),
    {
        if path.len() == 0 {
            true
        } else {
            &&& self.can_split()
            &&& if path[0] {
                self.later().splits_along(path.drop_first())
            } else {
                self.earlier().splits_along(path.drop_first())
            }
        }
    }
}

/// The least `k` with `n <= 2^k`, for `n >= 1`; zero for `n == 0`.
pub open spec fn ceil_log2(n: nat) -> nat
    decreases n,
{
    if n <= 1 {
        0
    } else {
        1 + ceil_log2((n + 1) / 2)
    }
}

/// A fetch request for one entity over a run of days.
#[derive(Debug)]
pub struct FetchTask {
    entity_key: String,
    external_ref: i32,
    from: i32,
    to: i32,
}

impl View for FetchTask {
    type V = TaskModel;

    closed spec fn view(&self) -> TaskModel {
        TaskModel {
            key: self.entity_key@,
            external_ref: self.external_ref as int,
            from: self.from as int,
            to: self.to as int,
        }
    }
}

/// What the range splitter decides for a task that asked for too much.
#[derive(Debug)]
pub enum SplitOutcome {
    /// The task was bisected; both halves are to be fetched.
    Children { earlier: FetchTask, later: FetchTask },
    /// The task covers a single day and cannot be narrowed: it cannot be
    /// fulfilled. The task is handed back as the diagnostic.
    Terminal { task: FetchTask },
}

impl FetchTask {
    /// Every task covers at least one day, and its day numbers are those of
    /// the fields.
    pub open spec fn wf(&self) -> bool {
        &&& self@.wf()
        &&& i32::MIN <= self@.external_ref <= i32::MAX
        &&& i32::MIN <= self@.from
        &&& self@.to <= i32::MAX
    }

    /// A task for the entity `id.0` with upstream reference `id.1`, over `days`
    /// days starting with day number `from`. There is no task over less than
    /// one day, nor one that ends beyond the last day number.
    pub fn new(id: (String, i32), from: i32, days: i64) -> (task: Option<FetchTask>)
        ensures
            task is Some <==> 1 <= days && from + days <= i32::MAX,
            task matches Some(t) ==> t.wf() && t@ == (TaskModel {
                key: id.0@,
                external_ref: id.1 as int,
                from: from as int,
                to: from + days,
            }),
    {
        if days < 1 || days > i32::MAX as i64 - from as i64 {
            return None;
        }
        let to: i64 = from as i64 + days;
        Some(FetchTask { entity_key: id.0, external_ref: id.1, from, to: to as i32 })
    }

    /// The key of the entity.
    pub fn entity_key(&self) -> (key: &String)
        ensures
            key@ == self@.key,
    {
        &self.entity_key
    }

    /// The upstream reference of the entity.
    pub fn external_ref(&self) -> (external_ref: i32)
        ensures
            external_ref == self@.external_ref,
    {
        self.external_ref
    }

    /// Day number of the first day covered.
    pub fn from(&self) -> (from: i32)
        ensures
            from == self@.from,
    {
        self.from
    }

    /// Day number of the first day after those covered.
    pub fn to(&self) -> (to: i32)
        ensures
            to == self@.to,
    {
        self.to
    }

    /// Number of days covered.
    pub fn num_days(&self) -> (days: i64)
        ensures
            days == self@.span(),
    {
        self.to as i64 - self.from as i64
    }

    /// A second task with the same contents.
    pub fn duplicate(&self) -> (copy: FetchTask)
        ensures
            copy@ == self@,
            copy.wf() == self.wf(),
    {
        FetchTask {
            entity_key: self.entity_key.clone(),
            external_ref: self.external_ref,
            from: self.from,
            to: self.to,
        }
    }

    /// Bisects a task of more than one day into two tasks for the same entity
    /// that together cover the same days, the earlier half taking the extra
    /// day of an odd span. A task of a single day is handed back as terminal.
    pub fn split(self) -> (outcome: SplitOutcome)
        requires
            self.wf(),
        ensures
            self@.can_split() ==> (outcome matches SplitOutcome::Children { earlier, later }
                && earlier.wf() && later.wf() && earlier@ == self@.earlier() && later@
                == self@.later()),
            !self@.can_split() ==> (outcome matches SplitOutcome::Terminal { task } && task
                == self),
    {
        let span: i64 = self.to as i64 - self.from as i64;
        if span > 1 {
            let mid: i64 = self.from as i64 + (span + 1) / 2;
            let earlier = FetchTask {
                entity_key: self.entity_key.clone(),
                external_ref: self.external_ref,
                from: self.from,
                to: mid as i32,
            };
            let later = FetchTask {
                entity_key: self.entity_key,
                external_ref: self.external_ref,
                from: mid as i32,
                to: self.to,
            };
            SplitOutcome::Children { earlier, later }
        } else {
            SplitOutcome::Terminal { task: self }
        }
    }
}

/// The two halves of a bisected task partition its days: every day of the
/// task lies in exactly one half, neither half is empty, the later half begins
/// where the earlier one ends, and the earlier half holds the extra day of an
/// odd span.
pub proof fn lemma_split_partitions(task: TaskModel)
    requires
        task.wf(),
        task.can_split(),
    ensures
        task.earlier().wf(),
        task.later().wf(),
        task.earlier().days().union(task.later().days()) == task.days(),
        task.earlier().days().disjoint(task.later().days()),
        task.earlier().from == task.from,
        task.earlier().to == task.later().from,
        task.later().to == task.to,
        task.earlier().span() + task.later().span() == task.span(),
        task.later().span() <= task.earlier().span() <= task.later().span() + 1,
        task.earlier().key == task.key && task.later().key == task.key,
        task.earlier().external_ref == task.external_ref,
        task.later().external_ref == task.external_ref,
{
    assert(task.earlier().days().union(task.later().days()) =~= task.days());
}

/// `ceil_log2` is the rounded-up binary logarithm: `2^ceil_log2(n)` is the
/// least power of two that is not below `n`.
pub proof fn lemma_ceil_log2_bounds(n: nat)
    requires
        n >= 1,
    ensures
        n <= pow2(ceil_log2(n)),
        n > 1 ==> pow2((ceil_log2(n) - 1) as nat) < n,
    decreases n,
{
    lemma2_to64();
    if n > 1 {
        let half: nat = (n + 1) / 2;
        lemma_ceil_log2_bounds(half);
        lemma_pow2_unfold(ceil_log2(n));
        if half > 1 {
            lemma_pow2_unfold(ceil_log2(half));
        }
    }
}

/// A longer span never needs fewer bisections.
pub proof fn lemma_ceil_log2_monotonic(m: nat, n: nat)
    requires
        m <= n,
    ensures
        ceil_log2(m) <= ceil_log2(n),
    decreases n,
{
    if m > 1 {
        lemma_ceil_log2_monotonic((m + 1) / 2, (n + 1) / 2);
    }
}

/// Bisecting ends: along any chain of bisections that starts at a task of `n`
/// days, the number of bisections is at most the rounded-up binary logarithm
/// of `n`, and a chain of exactly that length ends at a task of a single day.
pub proof fn lemma_split_terminates(task: TaskModel, path: Seq<bool>)
    requires
        task.wf(),
        task.splits_along(path),
    ensures
        path.len() <= ceil_log2(task.span() as nat),
        task.descend(path).wf(),
        task.descend(path).span() <= task.span(),
        ceil_log2(task.descend(path).span() as nat) + path.len() <= ceil_log2(task.span() as nat),
        path.len() == ceil_log2(task.span() as nat) ==> task.descend(path).span() == 1,
    decreases path.len(),
{
    if path.len() > 0 {
        let child = if path[0] {
            task.later()
        } else {
            task.earlier()
        };
        lemma_split_partitions(task);
        lemma_ceil_log2_monotonic(child.span() as nat, ((task.span() + 1) / 2) as nat);
        lemma_split_terminates(child, path.drop_first());
    } else {
        assert(task.span() >= 1);
    }
    if path.len() == ceil_log2(task.span() as nat) {
        let leaf = task.descend(path).span() as nat;
        assert(ceil_log2(leaf) == 0);
        assert(leaf <= 1) by {
            if leaf > 1 {
                assert(ceil_log2(leaf) == 1 + ceil_log2((leaf + 1) / 2));
            }
        }
    }
}

/// Number of fetches that a task of `n` days comes to at worst: where every
/// fetch of more than one day is answered with a call for a narrower range,
/// the task is fetched once and then each of its halves is.
pub open spec fn fetches_at_worst(n: nat) -> nat
    decreases n,
{
    if n <= 1 {
        1
    } else {
        1 + fetches_at_worst((n + 1) / 2) + fetches_at_worst(n / 2)
    }
}

/// A task of `n` days comes to `2n - 1` fetches at worst: one for each single
/// day, and one for each bisection on the way there.
pub proof fn lemma_fetches_at_worst(n: nat)
    requires
        n >= 1,
    ensures
        fetches_at_worst(n) == 2 * n - 1,
    decreases n,
{
    if n > 1 {
        lemma_fetches_at_worst((n + 1) / 2);
        lemma_fetches_at_worst(n / 2);
    }
}

} // verus!
