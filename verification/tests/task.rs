use calendar_refresh::task::{FetchTask, SplitOutcome};

fn task(from: i32, days: i64) -> FetchTask {
    FetchTask::new(("5502.01.250".to_string(), 17), from, days).expect("a task of at least one day")
}

fn halves(task: FetchTask) -> (FetchTask, FetchTask) {
    match task.split() {
        SplitOutcome::Children { earlier, later } => (earlier, later),
        SplitOutcome::Terminal { task } => panic!("not split: {:?}", task),
    }
}

/// Greatest number of bisections on any way from `task` down to a single day.
fn depth(task: FetchTask) -> u32 {
    match task.split() {
        SplitOutcome::Children { earlier, later } => {
            let a = depth(earlier);
            let b = depth(later);
            1 + if a > b { a } else { b }
        }
        SplitOutcome::Terminal { .. } => 0,
    }
}

/// Number of single days that `task` comes apart into.
fn leaves(task: FetchTask) -> i64 {
    match task.split() {
        SplitOutcome::Children { earlier, later } => leaves(earlier) + leaves(later),
        SplitOutcome::Terminal { task } => {
            assert_eq!(task.num_days(), 1);
            1
        }
    }
}

#[test]
fn new_task_keeps_its_parts() {
    let t = task(738_836, 4);
    assert_eq!(t.entity_key(), "5502.01.250");
    assert_eq!(t.external_ref(), 17);
    assert_eq!(t.from(), 738_836);
    assert_eq!(t.to(), 738_840);
    assert_eq!(t.num_days(), 4);
}

#[test]
fn new_task_needs_a_day() {
    assert!(FetchTask::new(("a".to_string(), 1), 10, 0).is_none());
    assert!(FetchTask::new(("a".to_string(), 1), 10, -3).is_none());
    assert!(FetchTask::new(("a".to_string(), 1), 10, 1).is_some());
}

#[test]
fn new_task_ends_within_the_day_numbers() {
    assert!(FetchTask::new(("a".to_string(), 1), i32::MAX - 1, 1).is_some());
    assert!(FetchTask::new(("a".to_string(), 1), i32::MAX - 1, 2).is_none());
    assert!(FetchTask::new(("a".to_string(), 1), i32::MAX, 1).is_none());
    assert!(FetchTask::new(("a".to_string(), 1), 0, i64::MAX).is_none());
    let widest = FetchTask::new(("a".to_string(), 1), i32::MIN, 4_294_967_295).unwrap();
    assert_eq!(widest.to(), i32::MAX);
    assert_eq!(widest.num_days(), 4_294_967_295);
}

#[test]
fn split_of_even_span_gives_equal_halves() {
    let (earlier, later) = halves(task(100, 4));
    assert_eq!((earlier.from(), earlier.to()), (100, 102));
    assert_eq!((later.from(), later.to()), (102, 104));
}

#[test]
fn split_of_odd_span_gives_the_extra_day_to_the_earlier_half() {
    let (earlier, later) = halves(task(100, 5));
    assert_eq!((earlier.from(), earlier.to()), (100, 103));
    assert_eq!((later.from(), later.to()), (103, 105));
    assert_eq!(earlier.num_days(), 3);
    assert_eq!(later.num_days(), 2);
}

#[test]
fn split_of_two_days_gives_two_single_days() {
    let (earlier, later) = halves(task(-1, 2));
    assert_eq!((earlier.from(), earlier.to()), (-1, 0));
    assert_eq!((later.from(), later.to()), (0, 1));
}

#[test]
fn split_keeps_entity_and_reference() {
    let (earlier, later) = halves(task(100, 7));
    assert_eq!(earlier.entity_key(), "5502.01.250");
    assert_eq!(later.entity_key(), "5502.01.250");
    assert_eq!(earlier.external_ref(), 17);
    assert_eq!(later.external_ref(), 17);
}

#[test]
fn split_of_a_single_day_is_terminal() {
    match task(100, 1).split() {
        SplitOutcome::Terminal { task } => {
            assert_eq!((task.from(), task.to()), (100, 101));
            assert_eq!(task.entity_key(), "5502.01.250");
            assert_eq!(task.external_ref(), 17);
        }
        SplitOutcome::Children { .. } => panic!("a single day was split"),
    }
}

#[test]
fn split_halves_partition_the_range() {
    for days in 2..200i64 {
        let (earlier, later) = halves(task(-50, days));
        assert_eq!(earlier.from(), -50);
        assert_eq!(earlier.to(), later.from());
        assert_eq!(later.to() as i64, -50 + days);
        assert!(earlier.num_days() >= 1 && later.num_days() >= 1);
        assert_eq!(earlier.num_days() + later.num_days(), days);
        assert!(earlier.num_days() - later.num_days() == 0 || earlier.num_days() - later.num_days() == 1);
    }
}

#[test]
fn split_of_the_widest_range_does_not_overflow() {
    let (earlier, later) = halves(FetchTask::new(("a".to_string(), 1), i32::MIN, 4_294_967_295).unwrap());
    assert_eq!(earlier.from(), i32::MIN);
    assert_eq!(earlier.to(), 0);
    assert_eq!(later.from(), 0);
    assert_eq!(later.to(), i32::MAX);
}

#[test]
fn split_reaches_single_days_within_the_binary_logarithm() {
    let expected = [(1i64, 0u32), (2, 1), (3, 2), (4, 2), (5, 3), (8, 3), (9, 4), (1000, 10), (1024, 10), (1025, 11)];
    for (days, bound) in expected {
        assert_eq!(depth(task(0, days)), bound, "span {}", days);
    }
}

#[test]
fn four_day_task_comes_apart_into_four_single_days() {
    assert_eq!(leaves(task(738_836, 4)), 4);
    assert_eq!(leaves(task(0, 37)), 37);
}

#[test]
fn duplicate_is_the_same_task() {
    let t = task(100, 5);
    let copy = t.duplicate();
    assert_eq!(copy.entity_key(), t.entity_key());
    assert_eq!(copy.external_ref(), t.external_ref());
    assert_eq!((copy.from(), copy.to()), (t.from(), t.to()));
}
