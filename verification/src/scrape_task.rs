//! One scrape run: the window of time it targets, the tasks it starts with,
//! and the removal of stored events that the run did not see again.
//!
//! Moments are whole seconds since 1970-01-01 00:00:00 UTC, durations are
//! whole seconds, and days are day numbers of the proleptic Gregorian
//! calendar, January 1 of the year 1 being day 1. The calendar is that of
//! chrono, which has a first and a last day.
use crate::scheduler::{RateLimiter, Scheduler};
use crate::task::{FetchTask, TaskModel};
use chrono::Datelike;
use vstd::prelude::*;

verus! {

/// Number of fetches that a scrape run holds in flight.
pub const CONCURRENT_REQUESTS: usize = 2;

/// The longest time window, in seconds, that a run can be given.
pub const MAX_TIME_WINDOW: i64 = 9_223_372_036_854_775;

/// Day number of the first day of the calendar: January 1 of the year
/// 262144 before the common era.
pub const FIRST_DAY: i32 = -95_746_129;

/// Day number of the last day of the calendar: December 31 of the year
/// 262142.
pub const LAST_DAY: i32 = 95_745_399;

/// First second of the first day of the calendar.
pub const FIRST_SECOND: i64 = -8_334_601_228_800;

/// Last second of the last day of the calendar.
pub const LAST_SECOND: i64 = 8_210_266_876_799;

/// Day number of the day that holds the moment `timestamp`.
pub open spec fn day_number_of(timestamp: int) -> int {
    timestamp / 86_400 + 719_163
}

/// The moment lies on a day of the calendar.
pub open spec fn in_calendar(timestamp: int) -> bool {
    FIRST_SECOND <= timestamp <= LAST_SECOND
}

/// The moments of the calendar are those whose day is one of its days.
pub proof fn lemma_calendar_days(timestamp: int)
    ensures
        in_calendar(timestamp) <==> FIRST_DAY <= day_number_of(timestamp) <= LAST_DAY,
{
}

/// Number of whole days in a duration, rounded towards zero.
pub open spec fn whole_days(duration: int) -> int {
    if duration >= 0 {
        duration / 86_400
    } else {
        -((-duration) / 86_400)
    }
}

/// Why there is no run.
#[derive(Clone, Copy, Debug, PartialEq, Eq, Structural)]
pub enum RunError {
    /// The time window is wider than the widest one.
    WindowTooWide,
    /// The moment at which the run is to begin is not known, or does not lie
    /// on a day of the calendar.
    OutsideCalendar,
}

/// The current moment: the time since the epoch that
/// `std::time::SystemTime::now` reports, added to the epoch by
/// `chrono::TimeDelta::from_std` and `chrono::DateTime::checked_add_signed`,
/// in whole seconds by `chrono::DateTime::timestamp`. There is none where the
/// clock stands before the epoch or beyond what chrono holds. Nothing is
/// claimed of the clock, and so nothing of the result.
#[verifier::external_body]
fn utc_now_seconds() -> (now: Option<i64>) {
    let since = std::time::SystemTime::now().duration_since(std::time::UNIX_EPOCH).ok()?;
    let elapsed = chrono::TimeDelta::from_std(since).ok()?;
    let moment = chrono::DateTime::UNIX_EPOCH.checked_add_signed(elapsed)?;
    Some(moment.timestamp())
}

/// The day number of the UTC date of a moment, by
/// `chrono::DateTime::from_timestamp`, `chrono::DateTime::date_naive` and
/// `chrono::Datelike::num_days_from_ce`. The claim: chrono knows the date of
/// exactly the moments that lie on a day of its calendar, which runs from
/// January 1 of its least year to December 31 of its greatest; and the day
/// number of the date is the number of whole days since the epoch, counted
/// from the epoch's own day number.
#[verifier::external_body]
fn utc_day_number(timestamp: i64) -> (day: Option<i32>)
    ensures
        day is Some <==> in_calendar(timestamp as int),
        day matches Some(d) ==> d == day_number_of(timestamp as int),
{
    match chrono::DateTime::from_timestamp(timestamp, 0) {
        Some(moment) => Some(moment.date_naive().num_days_from_ce()),
        None => None,
    }
}

/// The stretch of time that a run targets: from half of `width` before
/// `start_time` to half of `width` after it. Half of an odd width is half a
/// second more than a whole number of seconds; the edges are held exactly.
#[derive(Clone, Copy, Debug, PartialEq, Eq, Structural)]
pub struct ScrapeWindow {
    pub start_time: i64,
    pub width: i64,
}

impl ScrapeWindow {
    /// Twice the moment at which the window opens.
    pub open spec fn twice_lo(self) -> int {
        2 * self.start_time - self.width
    }

    /// Twice the moment at which the window closes.
    pub open spec fn twice_hi(self) -> int {
        2 * self.start_time + self.width
    }

    /// The second in which the window opens.
    pub open spec fn opens(self) -> int {
        self.twice_lo() / 2
    }

    /// An event from `start` to `end` lies within the window: it begins after
    /// the window opens and ends no later than the window closes.
    pub open spec fn encloses(self, start: int, end: int) -> bool {
        self.twice_lo() < 2 * start && 2 * end <= self.twice_hi()
    }
}

/// A stored booking.
#[derive(Debug)]
pub struct CalendarEvent {
    pub entity_key: String,
    pub start: i64,
    pub end: i64,
    pub uid: String,
    /// The moment of the run that last wrote the event.
    pub last_scrape: i64,
}

impl CalendarEvent {
    /// The event as written by the run with the given reference time: that
    /// time is the moment it was last written, all else is as it was.
    pub open spec fn spec_stamped(self, reference_time: i64) -> CalendarEvent {
        CalendarEvent { last_scrape: reference_time, ..self }
    }

    /// Stamps the event with the reference time of the run that writes it.
    pub fn stamped(self, reference_time: i64) -> (event: CalendarEvent)
        ensures
            event == self.spec_stamped(reference_time),
    {
        CalendarEvent {
            entity_key: self.entity_key,
            start: self.start,
            end: self.end,
            uid: self.uid,
            last_scrape: reference_time,
        }
    }

    /// A second event with the same contents.
    pub fn duplicate(&self) -> (copy: CalendarEvent)
        ensures
            copy == *self,
    {
        CalendarEvent {
            entity_key: self.entity_key.clone(),
            start: self.start,
            end: self.end,
            uid: self.uid.clone(),
            last_scrape: self.last_scrape,
        }
    }
}

/// An event is stale for a run when it lies within the run's window and was
/// last written before the run's reference time. What the run itself writes
/// bears the reference time, and is not stale.
pub open spec fn is_stale(window: ScrapeWindow, reference_time: i64, event: CalendarEvent) -> bool {
    &&& window.encloses(event.start as int, event.end as int)
    &&& event.last_scrape < reference_time
}

/// The events that a pruning pass keeps.
pub open spec fn survives(window: ScrapeWindow, reference_time: i64) -> spec_fn(
    CalendarEvent,
) -> bool {
    |event: CalendarEvent| !is_stale(window, reference_time, event)
}

/// What is left of `events` after the stale ones are removed.
pub open spec fn pruned(events: Seq<CalendarEvent>, window: ScrapeWindow, reference_time: i64) -> Seq<
    CalendarEvent,
> {
    events.filter(survives(window, reference_time))
}

/// Whether `event` is stale for the run with the given window and reference
/// time.
pub fn is_stale_event(window: &ScrapeWindow, reference_time: i64, event: &CalendarEvent) -> (stale:
    bool)
    ensures
        stale == is_stale(*window, reference_time, *event),
{
    let twice_lo: i128 = 2 * (window.start_time as i128) - window.width as i128;
    let twice_hi: i128 = 2 * (window.start_time as i128) + window.width as i128;
    twice_lo < 2 * (event.start as i128) && 2 * (event.end as i128) <= twice_hi && event.last_scrape
        < reference_time
}

/// Removes from `events` every event that is stale for the run with the given
/// window and reference time, keeps the others in their order, and returns the
/// number of events removed.
pub fn prune(events: &mut Vec<CalendarEvent>, window: &ScrapeWindow, run_reference_time: i64) -> (deleted:
    usize)
    ensures
        final(events)@ == pruned(old(events)@, *window, run_reference_time),
        deleted == old(events)@.len() - final(events)@.len(),
{
    let ghost keep = survives(*window, run_reference_time);
    let mut kept: Vec<CalendarEvent> = Vec::new();
    let n = events.len();
    let mut i: usize = 0;
    assert(events@.take(0).filter(keep) =~= Seq::<CalendarEvent>::empty()) by {
        events@.take(0).lemma_filter_len(keep);
    }
    while i < n
        invariant
            i <= n,
            n == events@.len(),
            events@ == old(events)@,
            keep == survives(*window, run_reference_time),
            kept@ == events@.take(i as int).filter(keep),
        decreases n - i,
    {
        proof {
            assert(events@.take(i + 1) =~= events@.take(i as int).push(events@[i as int]));
            events@.take(i as int).lemma_filter_push(events@[i as int], keep);
        }
        if !is_stale_event(window, run_reference_time, &events[i]) {
            kept.push(events[i].duplicate());
        }
        i = i + 1;
    }
    proof {
        assert(events@.take(n as int) =~= events@);
        events@.lemma_filter_len(keep);
    }
    let deleted = n - kept.len();
    *events = kept;
    deleted
}

/// One scrape run: the width of its time window and the moment it began,
/// which is the centre of the window and the run's reference time.
#[derive(Clone, Copy, Debug)]
pub struct ScrapeTask {
    time_window: i64,
    scraping_start: i64,
}

/// What becomes of a run over a window of `time_window` seconds that is to
/// begin at the moment `reading`, if one was read: which error there is, if
/// any. The window is looked at first.
pub open spec fn run_error(time_window: i64, reading: Option<i64>) -> Option<RunError> {
    if !(-MAX_TIME_WINDOW <= time_window <= MAX_TIME_WINDOW) {
        Some(RunError::WindowTooWide)
    } else if !(reading matches Some(moment) && in_calendar(moment as int)) {
        Some(RunError::OutsideCalendar)
    } else {
        None
    }
}

impl ScrapeTask {
    /// Width of the time window, in seconds.
    pub closed spec fn spec_time_window(&self) -> i64 {
        self.time_window
    }

    /// The moment the run began.
    pub closed spec fn spec_scraping_start(&self) -> i64 {
        self.scraping_start
    }

    /// The window is no wider than the widest one, and the run began on a
    /// day of the calendar.
    pub open spec fn wf(&self) -> bool {
        &&& -MAX_TIME_WINDOW <= self.spec_time_window() <= MAX_TIME_WINDOW
        &&& in_calendar(self.spec_scraping_start() as int)
    }

    /// The window of the run.
    pub open spec fn spec_window(&self) -> ScrapeWindow {
        ScrapeWindow { start_time: self.spec_scraping_start(), width: self.spec_time_window() }
    }

    /// Day number of the first day of the run's tasks: the day on which the
    /// window opens.
    pub open spec fn spec_first_day(&self) -> int {
        day_number_of(self.spec_window().opens())
    }

    /// Number of days that each of the run's tasks covers at the outset.
    pub open spec fn spec_days(&self) -> int {
        whole_days(self.spec_time_window() as int)
    }

    /// The task that the run starts with for the entity `id.0` with upstream
    /// reference `id.1`.
    pub open spec fn spec_task(&self, id: (String, i32)) -> TaskModel {
        TaskModel {
            key: id.0@,
            external_ref: id.1 as int,
            from: self.spec_first_day(),
            to: self.spec_first_day() + self.spec_days(),
        }
    }

    /// The run has tasks: its window holds at least one whole day, it opens
    /// on a day of the calendar, and the last of its days has a day number.
    pub open spec fn has_tasks(&self) -> bool {
        &&& self.spec_days() >= 1
        &&& in_calendar(self.spec_window().opens())
        &&& self.spec_first_day() + self.spec_days() <= i32::MAX
    }

    /// A run over a window of `time_window` seconds that begins at the moment
    /// `reading`, if one was read. There is none where the window is wider
    /// than the widest one, and none where no moment was read or the moment
    /// does not lie on a day of the calendar.
    pub fn from_reading(time_window: i64, reading: Option<i64>) -> (run: Result<
        ScrapeTask,
        RunError,
    >)
        ensures
            match run {
                Ok(r) => {
                    &&& run_error(time_window, reading) is None
                    &&& r.wf()
                    &&& r.spec_time_window() == time_window
                    &&& Some(r.spec_scraping_start()) == reading
                },
                Err(error) => run_error(time_window, reading) == Some(error),
            },
    {
        if time_window < -MAX_TIME_WINDOW || time_window > MAX_TIME_WINDOW {
            return Err(RunError::WindowTooWide);
        }
        match reading {
            Some(scraping_start) => {
                if scraping_start < FIRST_SECOND || scraping_start > LAST_SECOND {
                    Err(RunError::OutsideCalendar)
                } else {
                    Ok(ScrapeTask { time_window, scraping_start })
                }
            },
            None => Err(RunError::OutsideCalendar),
        }
    }

    /// A run over a window of `time_window` seconds that begins now, as the
    /// system clock has it. There is none where the window is wider than the
    /// widest one; and none where the clock cannot be read as a moment of the
    /// calendar.
    pub fn new(time_window: i64) -> (run: Result<ScrapeTask, RunError>)
        ensures
            run == Err::<ScrapeTask, RunError>(RunError::WindowTooWide) <==> !(-MAX_TIME_WINDOW
                <= time_window <= MAX_TIME_WINDOW),
            run matches Err(error) ==> error == RunError::WindowTooWide || error
                == RunError::OutsideCalendar,
            run matches Ok(r) ==> r.wf() && r.spec_time_window() == time_window,
    {
        ScrapeTask::from_reading(time_window, utc_now_seconds())
    }

    /// A run over a window of `time_window` seconds that began at
    /// `scraping_start`. There is none where the window is wider than the
    /// widest one, and none where `scraping_start` does not lie on a day of
    /// the calendar.
    pub fn starting_at(time_window: i64, scraping_start: i64) -> (run: Result<
        ScrapeTask,
        RunError,
    >)
        ensures
            match run {
                Ok(r) => {
                    &&& run_error(time_window, Some(scraping_start)) is None
                    &&& r.wf()
                    &&& r.spec_time_window() == time_window
                    &&& r.spec_scraping_start() == scraping_start
                },
                Err(error) => run_error(time_window, Some(scraping_start)) == Some(error),
            },
    {
        ScrapeTask::from_reading(time_window, Some(scraping_start))
    }

    /// Width of the time window, in seconds.
    pub fn time_window(&self) -> (time_window: i64)
        ensures
            time_window == self.spec_time_window(),
    {
        self.time_window
    }

    /// The moment the run began.
    pub fn scraping_start(&self) -> (scraping_start: i64)
        ensures
            scraping_start == self.spec_scraping_start(),
    {
        self.scraping_start
    }

    /// The window of the run: centred on the moment the run began, half the
    /// time window to either side.
    pub fn window(&self) -> (window: ScrapeWindow)
        ensures
            window == self.spec_window(),
    {
        ScrapeWindow { start_time: self.scraping_start, width: self.time_window }
    }

    /// Stamps what the run is about to write: each of `events` with the
    /// moment the run began as the moment it was last written, in their
    /// order.
    pub fn stamp(&self, events: Vec<CalendarEvent>) -> (stamped: Vec<CalendarEvent>)
        ensures
            stamped@.len() == events@.len(),
            forall|i: int|
                0 <= i < stamped@.len() ==> #[trigger] stamped@[i] == events@[i].spec_stamped(
                    self.spec_scraping_start(),
                ),
    {
        let mut stamped: Vec<CalendarEvent> = Vec::new();
        let mut i: usize = 0;
        while i < events.len()
            invariant
                i <= events@.len(),
                stamped@.len() == i,
                forall|j: int|
                    0 <= j < i ==> #[trigger] stamped@[j] == events@[j].spec_stamped(
                        self.spec_scraping_start(),
                    ),
            decreases events@.len() - i,
        {
            stamped.push(events[i].duplicate().stamped(self.scraping_start));
            i = i + 1;
        }
        stamped
    }

    /// Removes from `events` what the run did not see again: every event
    /// within the run's window that was last written before the moment the
    /// run began. What the run itself wrote, stamped with that moment, stays.
    /// Returns the number of events removed.
    pub fn delete_stale_results(&self, events: &mut Vec<CalendarEvent>) -> (deleted: usize)
        ensures
            final(events)@ == pruned(old(events)@, self.spec_window(), self.spec_scraping_start()),
            deleted == old(events)@.len() - final(events)@.len(),
    {
        let window = self.window();
        prune(events, &window, self.scraping_start)
    }

    /// The tasks that the run starts with, one for each of `rooms` and in
    /// their order, given the day number of the day on which the window
    /// opens. Each covers the whole days of the window from that day on. There
    /// are none where that day is not known, where the window holds no whole
    /// day, or where its last day has no day number.
    pub fn tasks_from(&self, first_day: Option<i32>, rooms: &Vec<(String, i32)>) -> (tasks: Option<
        Vec<FetchTask>,
    >)
        requires
            self.wf(),
        ensures
            tasks is Some <==> (first_day matches Some(day) && self.spec_days() >= 1 && day
                + self.spec_days() <= i32::MAX),
            tasks matches Some(list) ==> {
                &&& list@.len() == rooms@.len()
                &&& forall|i: int|
                    0 <= i < list@.len() ==> (#[trigger] list@[i]).wf() && list@[i]@ == (TaskModel {
                        key: rooms@[i].0@,
                        external_ref: rooms@[i].1 as int,
                        from: first_day->0 as int,
                        to: first_day->0 + self.spec_days(),
                    })
            },
    {
        let day = match first_day {
            Some(day) => day,
            None => {
                return None;
            },
        };
        let days: i64 = if self.time_window >= 0 {
            self.time_window / 86_400
        } else {
            -((-self.time_window) / 86_400)
        };
        if days < 1 || days > i32::MAX as i64 - day as i64 {
            return None;
        }
        let mut list: Vec<FetchTask> = Vec::new();
        let mut i: usize = 0;
        while i < rooms.len()
            invariant
                i <= rooms@.len(),
                list@.len() == i,
                days == self.spec_days(),
                1 <= days,
                day + days <= i32::MAX,
                forall|j: int|
                    0 <= j < i ==> (#[trigger] list@[j]).wf() && list@[j]@ == (TaskModel {
                        key: rooms@[j].0@,
                        external_ref: rooms@[j].1 as int,
                        from: day as int,
                        to: day + days,
                    }),
            decreases rooms@.len() - i,
        {
            let id = (rooms[i].0.clone(), rooms[i].1);
            match FetchTask::new(id, day, days) {
                Some(task) => {
                    list.push(task);
                },
                None => {
                    return None;
                },
            }
            i = i + 1;
        }
        Some(list)
    }

    /// The tasks that the run starts with, one for each of `rooms` and in
    /// their order: each from the day on which the window opens, over the
    /// whole days of the window. There are none where the run has no tasks.
    pub fn tasks(&self, rooms: &Vec<(String, i32)>) -> (tasks: Option<Vec<FetchTask>>)
        requires
            self.wf(),
        ensures
            tasks is Some <==> self.has_tasks(),
            tasks matches Some(list) ==> {
                &&& list@.len() == rooms@.len()
                &&& forall|i: int|
                    0 <= i < list@.len() ==> (#[trigger] list@[i]).wf() && list@[i]@
                        == self.spec_task(rooms@[i])
            },
    {
        let twice_lo: i128 = 2 * (self.scraping_start as i128) - self.time_window as i128;
        let opens: i128 = if twice_lo >= 0 {
            twice_lo / 2
        } else {
            -((1 - twice_lo) / 2)
        };
        assert(opens == self.spec_window().opens());
        self.tasks_from(utc_day_number(opens as i64), rooms)
    }

    /// The scheduler of the run: it holds at most [`CONCURRENT_REQUESTS`]
    /// fetches in flight, pauses as `limiter` says before each, and starts
    /// with the run's tasks for `rooms`, the last room first. There is none
    /// where the run has no tasks.
    pub fn schedule(&self, rooms: &Vec<(String, i32)>, limiter: RateLimiter) -> (scheduler: Option<
        Scheduler,
    >)
        requires
            self.wf(),
        ensures
            scheduler is Some <==> self.has_tasks(),
            scheduler matches Some(s) ==> {
                &&& s.wf()
                &&& s@.capacity == CONCURRENT_REQUESTS
                &&& s@.in_flight == 0
                &&& !s@.unstored
                &&& s.spacing_ms() == limiter.spacing_ms
                &&& s@.supply == Seq::new(rooms@.len(), |i: int| self.spec_task(rooms@[i]))
            },
    {
        match self.tasks(rooms) {
            Some(list) => {
                let scheduler = Scheduler::new(CONCURRENT_REQUESTS, limiter, list);
                proof {
                    let s = scheduler->0;
                    assert(s@.supply =~= Seq::new(
                        rooms@.len(),
                        |i: int| self.spec_task(rooms@[i]),
                    ));
                }
                scheduler
            },
            None => None,
        }
    }
}

/// Pruning removes exactly the stale events: an event of the store is kept if
/// and only if it is not stale, and nothing is kept that was not stored. In
/// particular every event written at or after the run's reference time is
/// kept, and so is every event that does not lie within the window, whenever
/// it was written.
pub proof fn lemma_prune_safety(
    events: Seq<CalendarEvent>,
    window: ScrapeWindow,
    reference_time: i64,
    event: CalendarEvent,
)
    requires
        events.contains(event),
    ensures
        pruned(events, window, reference_time).contains(event) <==> !is_stale(
            window,
            reference_time,
            event,
        ),
        event.last_scrape >= reference_time ==> pruned(events, window, reference_time).contains(
            event,
        ),
        !window.encloses(event.start as int, event.end as int) ==> pruned(
            events,
            window,
            reference_time,
        ).contains(event),
        forall|other: CalendarEvent| #[trigger]
            pruned(events, window, reference_time).contains(other) ==> events.contains(other),
{
    let keep = survives(window, reference_time);
    let i = choose|i: int| 0 <= i < events.len() && events[i] == event;
    if keep(event) {
        events.lemma_filter_contains(keep, i);
    }
    if pruned(events, window, reference_time).contains(event) {
        let j = choose|j: int|
            0 <= j < events.filter(keep).len() && events.filter(keep)[j] == event;
        events.lemma_filter_pred(keep, j);
    }
    assert forall|other: CalendarEvent| #[trigger]
        pruned(events, window, reference_time).contains(other) implies events.contains(other) by {
        events.lemma_filter_contains_rev(keep, other);
    }
}

/// Pruning never removes what the run in progress wrote: an event that bears
/// the run's reference time as the moment it was last written is kept,
/// wherever it lies.
pub proof fn lemma_prune_keeps_reference_time(
    events: Seq<CalendarEvent>,
    window: ScrapeWindow,
    reference_time: i64,
    event: CalendarEvent,
)
    requires
        events.contains(event),
        event.last_scrape == reference_time,
    ensures
        pruned(events, window, reference_time).contains(event),
{
    lemma_prune_safety(events, window, reference_time, event);
}

/// What a run stamps, its own pruning keeps: every event of the store that is
/// one of those the run stamped is in the store still after the run removed
/// what is stale.
pub proof fn lemma_stamped_survive(
    run: ScrapeTask,
    written: Seq<CalendarEvent>,
    events: Seq<CalendarEvent>,
    i: int,
)
    requires
        0 <= i < written.len(),
        events.contains(written[i].spec_stamped(run.spec_scraping_start())),
    ensures
        pruned(events, run.spec_window(), run.spec_scraping_start()).contains(
            written[i].spec_stamped(run.spec_scraping_start()),
        ),
{
    lemma_prune_keeps_reference_time(
        events,
        run.spec_window(),
        run.spec_scraping_start(),
        written[i].spec_stamped(run.spec_scraping_start()),
    );
}

} // verus!
