use calendar_refresh::pool::{Admission, Pool};
use calendar_refresh::scheduler::{Action, Completion, RateLimiter, Scheduler, Strategy};
use calendar_refresh::stats::{record_outcome, FetchOutcome, Statistic};
use calendar_refresh::task::FetchTask;

fn task(key: &str, from: i32, days: i64) -> FetchTask {
    FetchTask::new((key.to_string(), 1), from, days).unwrap()
}

fn scheduler(capacity: usize, keys: &[&str], days: i64) -> Scheduler {
    let supply = keys.iter().map(|key| task(key, 100, days)).collect();
    Scheduler::new(capacity, RateLimiter::default(), supply).unwrap()
}

fn start(scheduler: &mut Scheduler) -> FetchTask {
    match scheduler.next_action() {
        Action::Start { task, .. } => task,
        other => panic!("expected a start, got {:?}", other),
    }
}

#[test]
fn rate_limiter_pauses_fifty_milliseconds_by_default() {
    assert_eq!(RateLimiter::default().spacing_ms, 50);
    assert_eq!(RateLimiter::default().wait(), 50);
    assert_eq!(RateLimiter::new(125).wait(), 125);
    assert_eq!(RateLimiter::new(0).wait(), 0);
}

#[test]
fn scheduler_needs_a_slot() {
    assert!(Scheduler::new(0, RateLimiter::default(), vec![task("a", 1, 1)]).is_none());
    assert!(Scheduler::new(0, RateLimiter::default(), Vec::new()).is_none());
    assert!(Scheduler::new(1, RateLimiter::default(), Vec::new()).is_some());
}

#[test]
fn empty_scheduler_is_finished_at_once() {
    let mut s = scheduler(2, &[], 1);
    assert!(matches!(s.next_action(), Action::Finished));
    assert_eq!(s.in_flight(), 0);
}

#[test]
fn tasks_start_from_the_last_to_the_first() {
    let mut s = scheduler(5, &["a", "b", "c"], 1);
    assert_eq!(start(&mut s).entity_key(), "c");
    assert_eq!(start(&mut s).entity_key(), "b");
    assert_eq!(start(&mut s).entity_key(), "a");
    assert!(matches!(s.next_action(), Action::Await));
}

#[test]
fn start_carries_the_pause_of_the_limiter() {
    let mut s = Scheduler::new(1, RateLimiter::new(75), vec![task("a", 1, 1)]).unwrap();
    match s.next_action() {
        Action::Start { delay_ms, .. } => assert_eq!(delay_ms, 75),
        other => panic!("expected a start, got {:?}", other),
    }
}

#[test]
fn no_more_than_capacity_are_in_flight() {
    let mut s = scheduler(2, &["a", "b", "c"], 1);
    start(&mut s);
    start(&mut s);
    assert_eq!(s.in_flight(), 2);
    assert!(matches!(s.next_action(), Action::Await));
    assert!(matches!(s.next_action(), Action::Await));
    assert_eq!(s.in_flight(), 2);
    assert_eq!(s.waiting(), 1);
    assert_eq!(s.capacity(), 2);
}

#[test]
fn two_slots_five_candidates_all_succeed() {
    let mut s = scheduler(2, &["a", "b", "c", "d", "e"], 4);
    let mut time_stats = Statistic::new();
    let mut entry_stats = Statistic::new();
    let mut running: Vec<FetchTask> = Vec::new();
    let mut started = 0;
    let mut stores = 0;
    let mut unstored = 0;
    let mut most = 0;
    let counts = [3u64, 0, 11, 5, 8];
    loop {
        match s.next_action() {
            Action::Start { task, delay_ms } => {
                assert_eq!(delay_ms, 50);
                running.push(task);
                started += 1;
            }
            Action::Await => {
                let task = running.remove(0);
                let done = s.complete(task, Ok(counts[entry_stats.count() as usize]), 40).unwrap();
                assert!(matches!(done, Completion::Persist { .. }));
                record_outcome(&mut time_stats, &mut entry_stats, done.outcome());
                unstored += 1;
            }
            Action::Store => {
                assert_eq!(unstored, 1);
                unstored = 0;
                stores += 1;
                s.stored();
            }
            Action::Finished => break,
        }
        assert!(s.in_flight() <= 2);
        assert_eq!(s.in_flight(), running.len());
        most = most.max(s.in_flight());
    }
    assert_eq!(started, 5);
    assert_eq!(stores, 5);
    assert_eq!(unstored, 0);
    assert_eq!(most, 2);
    assert_eq!(entry_stats.count(), 5);
    assert_eq!(entry_stats.sum(), 27);
    assert_eq!(time_stats.count(), 5);
    assert_eq!(s.waiting(), 0);
}

#[test]
fn completion_in_any_order_frees_a_slot() {
    let mut s = scheduler(2, &["a", "b", "c"], 1);
    let first = start(&mut s);
    let second = start(&mut s);
    assert!(s.complete(second, Err(Strategy::NoRetry), 10).is_some());
    assert_eq!(s.in_flight(), 1);
    assert_eq!(start(&mut s).entity_key(), "a");
    assert!(s.complete(first, Err(Strategy::NoRetry), 10).is_some());
    assert_eq!(s.in_flight(), 1);
}

#[test]
fn nothing_starts_before_the_events_are_stored() {
    let mut s = scheduler(2, &["a", "b", "c"], 1);
    let c = start(&mut s);
    let b = start(&mut s);
    assert!(matches!(s.complete(c, Ok(4), 10), Some(Completion::Persist { .. })));
    assert_eq!(s.in_flight(), 1);
    assert!(matches!(s.next_action(), Action::Store));
    assert!(matches!(s.next_action(), Action::Store));
    assert_eq!(s.waiting(), 1);
    assert_eq!(s.in_flight(), 1);
    assert!(matches!(s.complete(b, Err(Strategy::NoRetry), 10), Some(Completion::Dropped { .. })));
    assert!(matches!(s.next_action(), Action::Store));
    s.stored();
    assert_eq!(start(&mut s).entity_key(), "a");
    assert!(matches!(s.next_action(), Action::Await));
}

#[test]
fn a_run_is_not_finished_before_the_last_events_are_stored() {
    let mut s = scheduler(1, &["a"], 1);
    let a = start(&mut s);
    assert!(s.complete(a, Ok(0), 10).is_some());
    assert!(matches!(s.next_action(), Action::Store));
    s.stored();
    assert!(matches!(s.next_action(), Action::Finished));
    s.stored();
    assert!(matches!(s.next_action(), Action::Finished));
}

#[test]
fn completion_with_nothing_in_flight_is_not_taken_note_of() {
    let mut s = scheduler(2, &["a"], 4);
    assert!(s.complete(task("x", 1, 4), Err(Strategy::RetrySmaller), 10).is_none());
    assert_eq!(s.in_flight(), 0);
    assert_eq!(s.waiting(), 1);
}

#[test]
fn success_is_to_be_persisted() {
    let mut s = scheduler(1, &["a"], 4);
    let t = start(&mut s);
    match s.complete(t, Ok(12), 345) {
        Some(Completion::Persist { outcome }) => {
            assert_eq!(outcome, FetchOutcome { success_count: 12, elapsed_ms: 345, was_split: false });
        }
        other => panic!("expected persist, got {:?}", other),
    }
    assert!(matches!(s.next_action(), Action::Store));
    s.stored();
    assert!(matches!(s.next_action(), Action::Finished));
}

#[test]
fn permanent_failure_drops_the_task() {
    let mut s = scheduler(1, &["a"], 4);
    let t = start(&mut s);
    match s.complete(t, Err(Strategy::NoRetry), 20) {
        Some(Completion::Dropped { task, outcome }) => {
            assert_eq!(task.entity_key(), "a");
            assert_eq!((task.from(), task.to()), (100, 104));
            assert_eq!(outcome, FetchOutcome { success_count: 0, elapsed_ms: 20, was_split: false });
        }
        other => panic!("expected dropped, got {:?}", other),
    }
    assert_eq!(s.waiting(), 0);
    assert!(matches!(s.next_action(), Action::Finished));
}

#[test]
fn retry_smaller_puts_both_halves_behind_the_waiting_tasks() {
    let mut s = scheduler(1, &["a", "b"], 5);
    let b = start(&mut s);
    match s.complete(b, Err(Strategy::RetrySmaller), 20) {
        Some(Completion::Split { outcome }) => {
            assert_eq!(outcome, FetchOutcome { success_count: 0, elapsed_ms: 20, was_split: true });
        }
        other => panic!("expected split, got {:?}", other),
    }
    assert_eq!(s.waiting(), 3);
    let a = start(&mut s);
    assert_eq!(a.entity_key(), "a");
    assert!(s.complete(a, Ok(0), 1).is_some());
    s.stored();
    let earlier = start(&mut s);
    assert_eq!(earlier.entity_key(), "b");
    assert_eq!((earlier.from(), earlier.to()), (100, 103));
    assert!(s.complete(earlier, Ok(0), 1).is_some());
    s.stored();
    let later = start(&mut s);
    assert_eq!(later.entity_key(), "b");
    assert_eq!((later.from(), later.to()), (103, 105));
}

#[test]
fn retry_smaller_on_a_single_day_cannot_be_fulfilled() {
    let mut s = scheduler(1, &["a"], 1);
    let t = start(&mut s);
    match s.complete(t, Err(Strategy::RetrySmaller), 20) {
        Some(Completion::Unfulfillable { task, outcome }) => {
            assert_eq!(task.entity_key(), "a");
            assert_eq!((task.from(), task.to()), (100, 101));
            assert_eq!(outcome, FetchOutcome { success_count: 0, elapsed_ms: 20, was_split: true });
        }
        other => panic!("expected unfulfillable, got {:?}", other),
    }
    assert_eq!(s.waiting(), 0);
}

#[test]
fn four_day_task_that_always_asks_for_less() {
    let mut s = scheduler(2, &["a"], 4);
    let mut entry_stats = Statistic::new();
    let mut time_stats = Statistic::new();
    let mut running: Vec<FetchTask> = Vec::new();
    let mut splits = 0;
    let mut warnings: Vec<(i32, i32)> = Vec::new();
    let mut persisted = 0u64;
    loop {
        match s.next_action() {
            Action::Start { task, .. } => running.push(task),
            Action::Await => {
                let task = running.pop().unwrap();
                let done = s.complete(task, Err(Strategy::RetrySmaller), 5).unwrap();
                record_outcome(&mut time_stats, &mut entry_stats, done.outcome());
                match done {
                    Completion::Split { .. } => splits += 1,
                    Completion::Unfulfillable { task, .. } => warnings.push((task.from(), task.to())),
                    Completion::Persist { outcome } => persisted += outcome.success_count,
                    Completion::Dropped { .. } => panic!("nothing fails for good here"),
                }
            }
            Action::Store => panic!("nothing was fetched"),
            Action::Finished => break,
        }
        assert!(s.in_flight() <= 2);
    }
    assert_eq!(splits, 3);
    warnings.sort();
    assert_eq!(warnings, vec![(100, 101), (101, 102), (102, 103), (103, 104)]);
    assert_eq!(persisted, 0);
    assert_eq!(entry_stats.sum(), 0);
    assert_eq!(entry_stats.count(), 7);
    assert_eq!(time_stats.count(), 0);
}

#[test]
fn pool_hands_out_the_last_item_first() {
    let mut pool = Pool::new(2, vec![1, 2, 3]).unwrap();
    assert!(matches!(pool.poll(), Admission::Start(3)));
    assert!(matches!(pool.poll(), Admission::Start(2)));
    assert!(matches!(pool.poll(), Admission::Await));
    assert_eq!((pool.in_flight(), pool.waiting(), pool.capacity()), (2, 1, 2));
    assert!(pool.release());
    assert!(matches!(pool.poll(), Admission::Start(1)));
    assert!(pool.release());
    assert!(pool.release());
    assert!(!pool.release());
    assert!(matches!(pool.poll(), Admission::Finished));
}

#[test]
fn pool_puts_items_back_behind_those_that_wait() {
    let mut pool = Pool::with_slots(1, vec![1, 2]);
    pool.put_back(7);
    pool.put_back(8);
    let mut order = Vec::new();
    loop {
        match pool.poll() {
            Admission::Start(item) => {
                order.push(item);
                assert!(pool.release());
            }
            Admission::Await => panic!("nothing is in flight"),
            Admission::Finished => break,
        }
    }
    assert_eq!(order, vec![2, 1, 7, 8]);
}

#[test]
fn pool_needs_a_slot() {
    assert!(Pool::new(0, vec![1]).is_none());
    assert!(Pool::<u8>::new(1, Vec::new()).is_some());
}
