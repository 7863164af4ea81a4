use file_rpc::emitter::{copy, delete, mv, Emitter, ErrorPolicy, Timed, DEFAULT_PROGRESS_INTERVAL};
use file_rpc::types::{Progress, StreamEvent};

fn ok(at: u64, done: u64, total: u64) -> Timed {
    Timed { at, item: Ok(Progress { done, total }) }
}

fn fail(at: u64, msg: &str) -> Timed {
    Timed { at, item: Err(msg.to_string()) }
}

fn progress_count(evs: &[StreamEvent]) -> usize {
    evs.iter().filter(|e| matches!(e, StreamEvent::Progress(_))).count()
}

fn terminal_count(evs: &[StreamEvent]) -> usize {
    evs.iter().filter(|e| matches!(e, StreamEvent::Terminal)).count()
}

/// Ten items, 50 ms apart, the last one complete.
fn ten_items() -> Vec<Timed> {
    (1..=10).map(|i| ok(50 * i, i, 10)).collect()
}

#[test]
fn throttled_copy_of_ten_items() {
    let evs = copy(Some(1000), &ten_items());
    let total_duration: u64 = 500;
    let bound = ((total_duration + 999) / 1000) as usize + 1;
    assert!(progress_count(&evs) <= bound);
    assert_eq!(terminal_count(&evs), 1);
    assert_eq!(evs.last(), Some(&StreamEvent::Terminal));
    assert_eq!(evs[evs.len() - 2], StreamEvent::Progress(Progress { done: 10, total: 10 }));
    assert_eq!(
        evs,
        vec![
            StreamEvent::Progress(Progress { done: 1, total: 10 }),
            StreamEvent::Progress(Progress { done: 10, total: 10 }),
            StreamEvent::Terminal,
        ]
    );
}

#[test]
fn copy_emits_again_once_the_interval_has_passed() {
    let items = vec![ok(0, 1, 4), ok(400, 2, 4), ok(1000, 3, 4), ok(1500, 4, 4)];
    let evs = copy(Some(1000), &items);
    assert_eq!(
        evs,
        vec![
            StreamEvent::Progress(Progress { done: 1, total: 4 }),
            StreamEvent::Progress(Progress { done: 3, total: 4 }),
            StreamEvent::Progress(Progress { done: 4, total: 4 }),
            StreamEvent::Terminal,
        ]
    );
}

#[test]
fn copy_without_interval_uses_the_default() {
    let e = Emitter::for_copy(None);
    assert_eq!(e.interval, DEFAULT_PROGRESS_INTERVAL);
    assert_eq!(e.policy, ErrorPolicy::Stop);
    let items = vec![ok(0, 1, 3), ok(999, 2, 3), ok(1000, 3, 4)];
    let evs = copy(None, &items);
    assert_eq!(progress_count(&evs), 2);
}

#[test]
fn copy_stops_at_its_first_failure() {
    let mut items = ten_items();
    items[2] = fail(150, "disk full");
    let evs = copy(Some(1000), &items);
    assert!(progress_count(&evs) <= 2);
    let failures: Vec<_> = evs.iter().filter(|e| matches!(e, StreamEvent::Failure(_))).collect();
    assert_eq!(failures, vec![&StreamEvent::Failure("disk full".to_string())]);
    assert_eq!(evs[evs.len() - 2], StreamEvent::Failure("disk full".to_string()));
    assert_eq!(evs.last(), Some(&StreamEvent::Terminal));
    assert_eq!(terminal_count(&evs), 1);
    assert!(!evs.iter().any(|e| matches!(e, StreamEvent::Progress(p) if p.done > 2)));
}

#[test]
fn move_goes_on_after_a_failure() {
    let mut items = ten_items();
    items[2] = fail(150, "permission denied");
    let evs = mv(&items);
    assert_eq!(evs.len(), 11);
    assert_eq!(evs[2], StreamEvent::Failure("permission denied".to_string()));
    assert_eq!(progress_count(&evs), 9);
    for i in 3..10 {
        assert_eq!(evs[i], StreamEvent::Progress(Progress { done: i as u64 + 1, total: 10 }));
    }
    assert_eq!(evs[10], StreamEvent::Terminal);
}

#[test]
fn delete_reports_every_item() {
    let items = vec![ok(0, 1, 3), fail(0, "gone"), fail(1, "busy"), ok(1, 3, 3)];
    let evs = delete(&items);
    assert_eq!(
        evs,
        vec![
            StreamEvent::Progress(Progress { done: 1, total: 3 }),
            StreamEvent::Failure("gone".to_string()),
            StreamEvent::Failure("busy".to_string()),
            StreamEvent::Progress(Progress { done: 3, total: 3 }),
            StreamEvent::Terminal,
        ]
    );
}

#[test]
fn empty_batch_is_just_the_terminal_marker() {
    assert_eq!(copy(Some(10), &vec![]), vec![StreamEvent::Terminal]);
    assert_eq!(mv(&vec![]), vec![StreamEvent::Terminal]);
}

#[test]
fn stopped_emitter_ignores_later_items() {
    let mut e = Emitter::new(ErrorPolicy::Stop, 1000);
    assert_eq!(e.on_item(5, &Err("bad".to_string())), Some(StreamEvent::Failure("bad".to_string())));
    assert!(e.is_stopped());
    assert_eq!(e.on_item(6, &Ok(Progress { done: 1, total: 1 })), None);
    assert_eq!(e.finish(), StreamEvent::Terminal);
}

#[test]
fn throttle_treats_a_clock_going_back_as_no_time_passed() {
    let mut e = Emitter::new(ErrorPolicy::Continue, 10);
    assert!(e.on_item(100, &Ok(Progress { done: 1, total: 5 })).is_some());
    assert_eq!(e.on_item(50, &Ok(Progress { done: 2, total: 5 })), None);
    assert!(e.on_item(110, &Ok(Progress { done: 3, total: 5 })).is_some());
    assert_eq!(e.last_emit, Some(110));
}
