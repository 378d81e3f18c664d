use timer_queue::DeadlineQueue;
use timer_queue::TimerRecord;

fn rec(deadline: u64, id: u64, period: u64, task: u32) -> TimerRecord<u32> {
    TimerRecord { deadline, id, period, task }
}

#[test]
fn insert_orders_by_deadline() {
    let mut q: DeadlineQueue<u32> = DeadlineQueue::new();
    assert!(q.is_empty());
    q.insert(rec(30, 0, 0, 0));
    q.insert(rec(10, 1, 0, 0));
    q.insert(rec(20, 2, 0, 0));
    assert_eq!(q.len(), 3);
    let head = q.peek_earliest().unwrap();
    assert_eq!(head.deadline, 10);
    assert_eq!(head.id, 1);
    let popped = q.pop_earliest();
    assert_eq!(popped.id, 1);
    assert_eq!(q.pop_earliest().id, 2);
    assert_eq!(q.pop_earliest().id, 0);
    assert!(q.peek_earliest().is_none());
}

#[test]
fn insert_at_occupied_instant_keeps_both() {
    let mut q: DeadlineQueue<u32> = DeadlineQueue::new();
    q.insert(rec(10, 0, 0, 7));
    q.insert(rec(10, 1, 0, 9));
    assert_eq!(q.len(), 2);
    let mut ids = vec![q.pop_earliest().id, q.pop_earliest().id];
    ids.sort();
    assert_eq!(ids, vec![0, 1]);
    assert!(q.is_empty());
}

#[test]
fn remove_deletes_exact_instant() {
    let mut q: DeadlineQueue<u32> = DeadlineQueue::new();
    q.insert(rec(10, 0, 0, 0));
    q.insert(rec(20, 1, 0, 0));
    assert!(!q.remove(15));
    assert_eq!(q.len(), 2);
    assert!(q.remove(10));
    assert_eq!(q.len(), 1);
    assert_eq!(q.peek_earliest().unwrap().deadline, 20);
}

#[test]
fn find_and_remove_by_id() {
    let mut q: DeadlineQueue<u32> = DeadlineQueue::new();
    q.insert(rec(10, 5, 0, 0));
    q.insert(rec(20, 6, 0, 0));
    q.insert(rec(30, 7, 0, 0));
    assert_eq!(q.find_by_id(6), Some(1));
    assert_eq!(q.find_by_id(8), None);
    assert!(q.remove_by_id(6));
    assert!(!q.remove_by_id(6));
    assert_eq!(q.len(), 2);
    assert_eq!(q.find_by_id(7), Some(1));
}

#[test]
fn set_period_keeps_instant() {
    let mut q: DeadlineQueue<u32> = DeadlineQueue::new();
    q.insert(rec(10, 5, 0, 0));
    assert!(q.set_period_by_id(5, 42));
    assert!(!q.set_period_by_id(9, 42));
    let head = q.peek_earliest().unwrap();
    assert_eq!(head.deadline, 10);
    assert_eq!(head.period, 42);
    q.clear();
    assert!(q.is_empty());
}
