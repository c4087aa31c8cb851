//! Running statistics over a stream of samples, and the rule by which the
//! outcome of a fetch enters them.
use vstd::prelude::*;

verus! {

/// Sum of the samples.
pub open spec fn total(samples: Seq<u64>) -> int
    decreases samples.len(),
{
    if samples.len() == 0 {
        0
    } else {
        total(samples.drop_last()) + samples.last()
    }
}

/// `low` is the least of the samples.
pub open spec fn is_min_of(low: u64, samples: Seq<u64>) -> bool {
    &&& samples.contains(low)
    &&& forall|i: int| 0 <= i < samples.len() ==> low <= #[trigger] samples[i]
}

/// `high` is the greatest of the samples.
pub open spec fn is_max_of(high: u64, samples: Seq<u64>) -> bool {
    &&& samples.contains(high)
    &&& forall|i: int| 0 <= i < samples.len() ==> #[trigger] samples[i] <= high
}

/// What a collector reports of the samples it has seen.
#[derive(Clone, Copy, Debug, PartialEq, Eq, Structural)]
pub struct Summary {
    /// Number of samples.
    pub count: u64,
    /// Sum of the samples divided by their number, rounded down.
    pub mean: u64,
    /// Least sample.
    pub min: u64,
    /// Greatest sample.
    pub max: u64,
}

/// Accumulates count, sum and extremes of the samples pushed into it. The
/// samples themselves are not kept; the view is the sequence of all samples
/// pushed so far, in order.
pub struct Statistic {
    count: u64,
    sum: u128,
    min: u64,
    max: u64,
    samples: Ghost<Seq<u64>>,
}

impl View for Statistic {
    type V = Seq<u64>;

    closed spec fn view(&self) -> Seq<u64> {
        self.samples@
    }
}

/// The samples sum to at most their number times the greatest `u64`.
proof fn lemma_total_bounded(samples: Seq<u64>)
    ensures
        0 <= total(samples) <= samples.len() * u64::MAX,
    decreases samples.len(),
{
    if samples.len() > 0 {
        lemma_total_bounded(samples.drop_last());
        assert((samples.len() - 1) * u64::MAX + u64::MAX == samples.len() * u64::MAX)
            by (nonlinear_arith);
    }
}

impl Statistic {
    /// The fields agree with the samples seen.
    pub closed spec fn wf(&self) -> bool {
        &&& self.count == self@.len()
        &&& self.sum == total(self@)
        &&& self@.len() > 0 ==> is_min_of(self.min, self@) && is_max_of(self.max, self@)
    }

    /// A collector that has seen nothing.
    pub fn new() -> (stats: Statistic)
        ensures
            stats.wf(),
            stats@ == Seq::<u64>::empty(),
    {
        Statistic { count: 0, sum: 0, min: 0, max: 0, samples: Ghost(Seq::empty()) }
    }

    /// Takes one more sample.
    pub fn push(&mut self, value: u64)
        requires
            old(self).wf(),
            old(self)@.len() < u64::MAX,
        ensures
            final(self).wf(),
            final(self)@ == old(self)@.push(value),
    {
        proof {
            lemma_total_bounded(self@);
            assert(self@.len() * u64::MAX + u64::MAX <= u64::MAX * u64::MAX) by (nonlinear_arith)
                requires
                    self@.len() < u64::MAX,
            ;
            assert(u64::MAX * u64::MAX < u128::MAX) by (nonlinear_arith);
        }
        let ghost before = self@;
        let ghost after = before.push(value);
        let first = self.count == 0;
        let min = if first || value < self.min {
            value
        } else {
            self.min
        };
        let max = if first || value > self.max {
            value
        } else {
            self.max
        };
        proof {
            assert(after.drop_last() == before);
            assert(after[before.len() as int] == value);
            if !first {
                let i_min = choose|i: int| 0 <= i < before.len() && before[i] == self.min;
                assert(after[i_min] == self.min);
                let i_max = choose|i: int| 0 <= i < before.len() && before[i] == self.max;
                assert(after[i_max] == self.max);
            }
            assert(is_min_of(min, after));
            assert(is_max_of(max, after));
        }
        *self = Statistic {
            count: self.count + 1,
            sum: self.sum + value as u128,
            min,
            max,
            samples: Ghost(after),
        };
    }

    /// Number of samples seen.
    pub fn count(&self) -> (count: u64)
        requires
            self.wf(),
        ensures
            count == self@.len(),
    {
        self.count
    }

    /// Sum of the samples seen.
    pub fn sum(&self) -> (sum: u128)
        requires
            self.wf(),
        ensures
            sum == total(self@),
    {
        self.sum
    }

    /// Count, mean and extremes of the samples seen; nothing where none was
    /// seen.
    pub fn summary(&self) -> (summary: Option<Summary>)
        requires
            self.wf(),
        ensures
            summary is None <==> self@.len() == 0,
            summary matches Some(s) ==> {
                &&& s.count == self@.len()
                &&& s.mean == total(self@) / (self@.len() as int)
                &&& is_min_of(s.min, self@)
                &&& is_max_of(s.max, self@)
            },
    {
        if self.count == 0 {
            return None;
        }
        proof {
            lemma_total_bounded(self@);
            assert(total(self@) / (self@.len() as int) <= u64::MAX) by (nonlinear_arith)
                requires
                    0 <= total(self@) <= self@.len() * u64::MAX,
                    self@.len() > 0,
            ;
        }
        let mean: u128 = self.sum / (self.count as u128);
        Some(Summary { count: self.count, mean: mean as u64, min: self.min, max: self.max })
    }
}

/// What one completed fetch leaves behind for the statistics.
#[derive(Clone, Copy, Debug, PartialEq, Eq, Structural)]
pub struct FetchOutcome {
    /// Number of events the fetch delivered.
    pub success_count: u64,
    /// Time the fetch took, in milliseconds.
    pub elapsed_ms: u64,
    /// Whether the source asked for a narrower range.
    pub was_split: bool,
}

/// The samples of elapsed time after `outcome` was recorded: a fetch that was
/// split leaves none.
pub open spec fn time_samples_after(before: Seq<u64>, outcome: FetchOutcome) -> Seq<u64> {
    if outcome.was_split {
        before
    } else {
        before.push(outcome.elapsed_ms)
    }
}

/// Records a completed fetch: its count of events always enters `entry_stats`,
/// its elapsed time enters `time_stats` unless the fetch was split.
pub fn record_outcome(time_stats: &mut Statistic, entry_stats: &mut Statistic, outcome: FetchOutcome)
    requires
        old(time_stats).wf(),
        old(entry_stats).wf(),
        old(time_stats)@.len() < u64::MAX,
        old(entry_stats)@.len() < u64::MAX,
    ensures
        final(time_stats).wf(),
        final(entry_stats).wf(),
        final(entry_stats)@ == old(entry_stats)@.push(outcome.success_count),
        final(time_stats)@ == time_samples_after(old(time_stats)@, outcome),
{
    entry_stats.push(outcome.success_count);
    if !outcome.was_split {
        time_stats.push(outcome.elapsed_ms);
    }
}

/// Number of completed fetches after which progress is reported.
pub const PROGRESS_EVERY: u64 = 30;

/// Progress is reported each time the number of completed fetches reaches a
/// positive multiple of `every`; never where `every` is zero.
pub fn progress_due(completed: u64, every: u64) -> (due: bool)
    ensures
        due == (every > 0 && completed > 0 && completed % every == 0),
{
    every > 0 && completed > 0 && completed % every == 0
}

} // verus!
