use onewire_core::debounce::Edge;
use onewire_core::poll::{PollLoop, TickOutcome};
use onewire_core::scheduler::TaskPhase;

#[test]
fn loop_starts_with_the_task_queued() {
    let mut poll = PollLoop::start(100, 1);
    assert_eq!(poll.phase(), TaskPhase::Queued);
    assert!(poll.dispatch(100));
    assert_eq!(poll.phase(), TaskPhase::Running);
}

#[test]
fn tick_reports_the_edge_and_rearms() {
    let mut poll = PollLoop::start(0, 1_000_000);
    let samples = [true, true, false, true, true, false, false];
    let expected = [
        None,
        Some(Edge::Rising),
        None,
        None,
        None,
        None,
        Some(Edge::Falling),
    ];
    let mut now: u64 = 0;
    for (sample, edge) in samples.iter().zip(expected.iter()) {
        assert!(poll.dispatch(now));
        let outcome = poll.tick(now, *sample);
        assert_eq!(
            outcome,
            TickOutcome { edge: *edge, report: edge.map(|e| e.code()), rearmed: true }
        );
        assert_eq!(poll.complete(now + 3), TaskPhase::Queued);
        assert!(!poll.dispatch(now + 999_999));
        now += 1_000_000;
    }
}

#[test]
fn failed_rearm_is_dropped() {
    let mut poll = PollLoop::start(0, 10);
    assert!(poll.dispatch(0));
    let first = poll.tick(0, true);
    assert!(first.rearmed);
    let second = poll.tick(1, true);
    assert!(!second.rearmed);
    assert_eq!(second.edge, Some(Edge::Rising));
    assert_eq!(second.report, Some(0));
    assert_eq!(poll.complete(2), TaskPhase::Queued);
    assert!(!poll.dispatch(9));
    assert!(poll.dispatch(10));
}

#[test]
fn one_microsecond_interval_is_kept() {
    let mut poll = PollLoop::start(0, 1);
    let mut now: u64 = 0;
    let mut starts = Vec::new();
    for _ in 0..20 {
        while !poll.dispatch(now) {
            now += 1;
        }
        starts.push(now);
        assert!(poll.tick(now, false).rearmed);
        poll.complete(now);
    }
    for (n, start) in starts.iter().enumerate() {
        assert!(*start >= starts[0] + n as u64);
    }
}
