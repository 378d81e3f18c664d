use timer_queue::TimerQueue;
use timer_queue::WorkerStep;

/// Drives the worker from `now` until the next wake would pass `end`,
/// counting fires per task tag; returns the time the worker stopped at.
fn run_until(q: &mut TimerQueue<u32>, mut now: u64, end: u64, counts: &mut [u64; 4]) -> u64 {
    loop {
        match q.worker_step(now) {
            WorkerStep::Fire(_id, tag) => {
                counts[tag as usize] += 1;
            }
            WorkerStep::TimedWait(d) => {
                if now + d > end {
                    break;
                }
                now += d;
            }
            WorkerStep::IdleWait => break,
            WorkerStep::Stopped => break,
        }
    }
    now
}

#[test]
fn test_timer_queue_with_handler() {
    // The failure hook itself lives with the host; the scheduler state a
    // fresh instance exposes is the same: idle, empty, not stopped.
    let mut timer: TimerQueue<u32> = TimerQueue::new();
    assert!(timer.len() == 0);
    assert!(timer.is_empty());
    assert!(matches!(timer.worker_step(0), WorkerStep::IdleWait));
}

#[test]
fn test_timer_queue_new_without_handler() {
    let mut timer: TimerQueue<u32> = TimerQueue::new();
    assert!(timer.len() == 0);
    assert!(!timer.contains_id(0));
    assert!(matches!(timer.worker_step(0), WorkerStep::IdleWait));
}

#[test]
fn test_timer_startup_and_shutdown() {
    let mut timer: TimerQueue<u32> = TimerQueue::new();
    assert!(matches!(timer.worker_step(0), WorkerStep::IdleWait));
    timer.shutdown();
    assert!(matches!(timer.worker_step(0), WorkerStep::Stopped));
    assert!(timer.len() == 0);
    assert!(timer.is_empty());
}

#[test]
fn test_timer_run_fast_and_slow() {
    let mut timer: TimerQueue<u32> = TimerQueue::new();
    let mut counts: [u64; 4] = [0; 4];
    let fast: u32 = 0;
    let slow: u32 = 1;
    let id = timer.schedule_periodic(0, 50, fast);
    timer.schedule_periodic(0, 150, slow);
    let now = run_until(&mut timer, 0, 400, &mut counts);
    assert!(timer.len() == 2);
    assert!(timer.contains_id(id));
    timer.cancel(id);
    assert!(!timer.contains_id(id));
    let saved = counts[fast as usize];
    let prior = counts[slow as usize];

    run_until(&mut timer, now, 600, &mut counts);
    assert!(counts[fast as usize] == saved);
    timer.shutdown();
    assert!(
        counts[slow as usize] >= 2
            && counts[fast as usize] > counts[slow as usize]
            && counts[slow as usize] <= 5
    );
    assert!(counts[slow as usize] > prior);
}

#[test]
fn fires_in_deadline_order() {
    let mut timer: TimerQueue<u32> = TimerQueue::new();
    let a = timer.schedule_at(30, 0);
    let b = timer.schedule_at(10, 1);
    let c = timer.schedule_at(20, 2);
    let mut fired: Vec<u64> = Vec::new();
    loop {
        match timer.worker_step(100) {
            WorkerStep::Fire(id, _tag) => fired.push(id),
            _ => break,
        }
    }
    assert_eq!(fired, vec![b, c, a]);
    assert!(timer.is_empty());
}

#[test]
fn same_instant_keeps_both_records() {
    let mut timer: TimerQueue<u32> = TimerQueue::new();
    let first = timer.schedule_at(5, 0);
    let second = timer.schedule_at(5, 1);
    assert_ne!(first, second);
    assert_eq!(timer.len(), 2);
    let mut fired: Vec<u64> = Vec::new();
    loop {
        match timer.worker_step(5) {
            WorkerStep::Fire(id, _tag) => fired.push(id),
            _ => break,
        }
    }
    // both fire; their relative order is not part of the contract
    fired.sort();
    assert_eq!(fired, vec![first, second]);
    assert_eq!(timer.len(), 0);
}

#[test]
fn one_shot_fires_once_and_leaves() {
    let mut timer: TimerQueue<u32> = TimerQueue::new();
    let id = timer.schedule_custom(7, 0, 3);
    assert!(timer.contains_id(id));
    match timer.worker_step(7) {
        WorkerStep::Fire(fired, tag) => {
            assert_eq!(fired, id);
            assert_eq!(tag, 3);
        }
        _ => panic!("expected a fire"),
    }
    assert!(!timer.contains_id(id));
    assert_eq!(timer.len(), 0);
    assert!(matches!(timer.worker_step(1_000), WorkerStep::IdleWait));
}

#[test]
fn cancel_pending_and_unknown() {
    let mut timer: TimerQueue<u32> = TimerQueue::new();
    assert!(!timer.cancel(99));
    let id = timer.schedule_at(40, 0);
    assert!(timer.cancel(id));
    assert!(!timer.cancel(id));
    let again = timer.schedule_at(40, 0);
    assert!(matches!(timer.worker_step(40), WorkerStep::Fire(_, _)));
    assert!(!timer.cancel(again));
}

#[test]
fn cancel_periodic_stops_recurrence() {
    let mut timer: TimerQueue<u32> = TimerQueue::new();
    let mut counts: [u64; 4] = [0; 4];
    let fast_id = timer.schedule_periodic(0, 10, 0);
    timer.schedule_periodic(0, 25, 1);
    let now = run_until(&mut timer, 0, 10, &mut counts);
    assert_eq!(counts[0], 1);
    assert!(timer.cancel_periodic(fast_id));
    let now = run_until(&mut timer, now, 100, &mut counts);
    // one more fire was already queued when recurrence stopped
    assert_eq!(counts[0], 2);
    assert_eq!(counts[1], 4);
    assert!(!timer.contains_id(fast_id));
    run_until(&mut timer, now, 200, &mut counts);
    assert_eq!(counts[0], 2);
    assert!(counts[1] > 4);
    assert!(!timer.cancel_periodic(fast_id));
}

#[test]
fn set_periodic_changes_cadence() {
    let mut timer: TimerQueue<u32> = TimerQueue::new();
    let id = timer.schedule_periodic(0, 10, 0);
    let mut fired_at: Vec<u64> = Vec::new();
    let mut now: u64 = 0;
    while now <= 80 {
        match timer.worker_step(now) {
            WorkerStep::Fire(_, _) => fired_at.push(now),
            WorkerStep::TimedWait(d) => now += d,
            _ => break,
        }
        if fired_at.len() == 1 && timer.len() == 1 {
            assert!(timer.set_periodic(id, 30));
        }
    }
    // first fire at 10; the queued fire at 20 keeps its instant; after it
    // the new period applies: 50, 80
    assert_eq!(fired_at, vec![10, 20, 50, 80]);
    assert!(!timer.set_periodic(999, 5));
}

#[test]
fn shutdown_freezes_queue() {
    let mut timer: TimerQueue<u32> = TimerQueue::new();
    timer.schedule_at(10, 0);
    timer.schedule_periodic(0, 5, 1);
    assert_eq!(timer.len(), 2);
    assert!(!timer.is_empty());
    timer.shutdown();
    assert!(timer.is_empty());
    assert_eq!(timer.len(), 2);
    assert!(matches!(timer.worker_step(1_000), WorkerStep::Stopped));
    assert_eq!(timer.len(), 2);
}

#[test]
fn clear_keeps_lifecycle() {
    let mut timer: TimerQueue<u32> = TimerQueue::new();
    timer.schedule_at(10, 0);
    timer.schedule_at(20, 1);
    assert_eq!(timer.len(), 2);
    timer.clear();
    assert_eq!(timer.len(), 0);
    assert!(timer.is_empty());
    assert!(matches!(timer.worker_step(50), WorkerStep::IdleWait));
}

#[test]
fn overdue_periodic_catches_up_without_drift() {
    let mut timer: TimerQueue<u32> = TimerQueue::new();
    timer.schedule_custom(5, 10, 0);
    let mut fires: u64 = 0;
    loop {
        match timer.worker_step(50) {
            WorkerStep::Fire(_, _) => fires += 1,
            WorkerStep::TimedWait(d) => {
                // reinsertion is anchored to the expired deadline, so the
                // next deadline after catching up is 55, not 50 + 10
                assert_eq!(d, 5);
                break;
            }
            _ => panic!("queue should not be empty"),
        }
    }
    assert_eq!(fires, 5);
}

#[test]
fn catching_up_keeps_equal_instant_record() {
    // a periodic timer catching up reinserts itself at an instant where an
    // unrelated one-shot already waits; both fire
    let mut timer: TimerQueue<u32> = TimerQueue::new();
    timer.schedule_custom(5, 10, 0);
    timer.schedule_at(15, 1);
    let mut counts: [u64; 4] = [0; 4];
    loop {
        match timer.worker_step(50) {
            WorkerStep::Fire(_, tag) => counts[tag as usize] += 1,
            _ => break,
        }
    }
    // the periodic timer fires at 5, 15, 25, 35, 45; the one-shot at 15
    assert_eq!(counts[0], 5);
    assert_eq!(counts[1], 1);
    assert_eq!(timer.len(), 1);
}

#[test]
fn timed_wait_is_time_to_deadline() {
    let mut timer: TimerQueue<u32> = TimerQueue::new();
    timer.schedule_at(100, 0);
    match timer.worker_step(40) {
        WorkerStep::TimedWait(d) => assert_eq!(d, 60),
        _ => panic!("expected a timed wait"),
    }
}

#[test]
fn len_counts_pending_timers() {
    let mut timer: TimerQueue<u32> = TimerQueue::new();
    let a = timer.schedule_at(10, 0);
    timer.schedule_at(20, 1);
    timer.schedule_periodic(0, 30, 2);
    assert_eq!(timer.len(), 3);
    assert!(matches!(timer.worker_step(10), WorkerStep::Fire(_, _)));
    assert_eq!(timer.len(), 2);
    assert!(!timer.cancel(a));
    assert!(timer.cancel(1));
    assert_eq!(timer.len(), 1);
}

#[test]
fn failing_task_does_not_stop_schedule() {
    // a fire whose callback aborts abnormally in the host is already
    // reflected in the queue before the callback runs, so later fires of
    // other timers and of the same timer are unaffected
    let mut timer: TimerQueue<u32> = TimerQueue::new();
    let faulty: u32 = 0;
    let steady: u32 = 1;
    timer.schedule_periodic(0, 20, faulty);
    timer.schedule_periodic(0, 30, steady);
    let mut counts: [u64; 4] = [0; 4];
    let mut now: u64 = 0;
    loop {
        match timer.worker_step(now) {
            WorkerStep::Fire(_, tag) => {
                // the faulty callback's abnormal end happens after the
                // queue was updated; nothing of it reaches the scheduler
                counts[tag as usize] += 1;
            }
            WorkerStep::TimedWait(d) => {
                if now + d > 120 {
                    break;
                }
                now += d;
            }
            _ => break,
        }
    }
    assert_eq!(counts[faulty as usize], 6);
    assert_eq!(counts[steady as usize], 4);
}
