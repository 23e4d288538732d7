use onewire_core::error::ErrorKind;
use onewire_core::scheduler::{TaskHandle, TaskPhase};

#[test]
fn new_task_is_idle() {
    let task = TaskHandle::new();
    assert_eq!(task.phase(), TaskPhase::Idle);
    assert_eq!(task.ready_at(), None);
}

#[test]
fn spawn_queues_an_idle_task_only() {
    let mut task = TaskHandle::new();
    assert_eq!(task.spawn(5), Ok(()));
    assert_eq!(task.phase(), TaskPhase::Queued);
    assert_eq!(task.ready_at(), Some(5));
    assert_eq!(task.spawn(6), Err(ErrorKind::SchedulingFailure));
    assert_eq!(task.ready_at(), Some(5));
    assert!(task.dispatch(6));
    assert_eq!(task.phase(), TaskPhase::Running);
    assert_eq!(task.spawn(7), Err(ErrorKind::SchedulingFailure));
    assert_eq!(task.phase(), TaskPhase::Running);
    assert_eq!(task.complete(8), TaskPhase::Idle);
    assert_eq!(task.spawn(9), Ok(()));
}

#[test]
fn task_does_not_start_before_its_time() {
    let mut task = TaskHandle::new();
    assert_eq!(task.spawn_after(10, 100), Ok(()));
    assert_eq!(task.ready_at(), Some(110));
    assert!(!task.dispatch(10));
    assert!(!task.dispatch(109));
    assert_eq!(task.phase(), TaskPhase::Queued);
    assert!(task.dispatch(110));
    assert_eq!(task.phase(), TaskPhase::Running);
    assert!(!task.dispatch(111));
}

#[test]
fn running_task_rearms_itself_once() {
    let mut task = TaskHandle::new();
    task.spawn(0).unwrap();
    assert!(task.dispatch(0));
    assert_eq!(task.spawn_after(1, 1000), Ok(()));
    assert_eq!(task.phase(), TaskPhase::Running);
    assert_eq!(task.spawn_after(2, 1000), Err(ErrorKind::SchedulingFailure));
    assert_eq!(task.complete(3), TaskPhase::Queued);
    assert_eq!(task.ready_at(), Some(1001));
    assert_eq!(task.spawn_after(4, 1), Err(ErrorKind::SchedulingFailure));
    assert_eq!(task.ready_at(), Some(1001));
}

#[test]
fn task_that_does_not_rearm_returns_to_idle() {
    let mut task = TaskHandle::new();
    task.spawn(3).unwrap();
    assert!(task.dispatch(4));
    assert_eq!(task.complete(4), TaskPhase::Idle);
    assert!(!task.dispatch(1_000_000));
    assert_eq!(task.phase(), TaskPhase::Idle);
}

#[test]
fn complete_on_a_task_that_is_not_running_changes_nothing() {
    let mut task = TaskHandle::new();
    assert_eq!(task.complete(1), TaskPhase::Idle);
    task.spawn(2).unwrap();
    assert_eq!(task.complete(3), TaskPhase::Queued);
    assert_eq!(task.ready_at(), Some(2));
}

#[test]
fn periodic_task_keeps_its_interval() {
    let interval: u64 = 1_000_000;
    let mut task = TaskHandle::new();
    task.spawn(17).unwrap();
    let mut now: u64 = 17;
    let mut starts = Vec::new();
    for round in 0..50u64 {
        while !task.dispatch(now) {
            now += 33_333 + round;
        }
        starts.push(now);
        now += 7;
        assert_eq!(task.spawn_after(now, interval), Ok(()));
        now += 5;
        assert_eq!(task.complete(now), TaskPhase::Queued);
    }
    for (n, start) in starts.iter().enumerate() {
        assert!(*start >= starts[0] + (n as u64) * interval);
    }
}

#[test]
fn latest_time_can_be_scheduled() {
    let mut task = TaskHandle::new();
    assert_eq!(task.spawn_after(u64::MAX - 1, 1), Ok(()));
    assert_eq!(task.ready_at(), Some(u64::MAX));
    assert!(task.dispatch(u64::MAX));
}
