use edge_workers::slot::{RuntimeSlot, SlotDecision};
use edge_workers::worker::{
    worker_start, worker_step, RequestQueue, WorkerAction, WorkerEvent, QUEUE_CAPACITY,
};

#[test]
fn request_before_idle_window_resets_timer() {
    let mut st = worker_start(0);
    assert_eq!(worker_step(&mut st, WorkerEvent::Request { at_ms: 4900 }), WorkerAction::Serve);
    assert_eq!(st.last_activity_ms, 4900);
    assert_eq!(worker_step(&mut st, WorkerEvent::Timer { now_ms: 9000 }), WorkerAction::Wait);
    assert_eq!(worker_step(&mut st, WorkerEvent::Timer { now_ms: 9900 }), WorkerAction::Terminate);
}

#[test]
fn request_at_idle_deadline_is_lost_to_termination() {
    let mut st = worker_start(0);
    assert_eq!(worker_step(&mut st, WorkerEvent::Request { at_ms: 5000 }), WorkerAction::Terminate);
    assert!(!st.alive);
}

#[test]
fn reaped_worker_serves_nothing_more() {
    let mut st = worker_start(1000);
    assert_eq!(worker_step(&mut st, WorkerEvent::Timer { now_ms: 6000 }), WorkerAction::Terminate);
    assert_eq!(worker_step(&mut st, WorkerEvent::Request { at_ms: 6001 }), WorkerAction::Discard);
    assert_eq!(worker_step(&mut st, WorkerEvent::Timer { now_ms: 6002 }), WorkerAction::Discard);
}

#[test]
fn timer_inside_window_keeps_waiting() {
    let mut st = worker_start(100);
    assert_eq!(worker_step(&mut st, WorkerEvent::Timer { now_ms: 5099 }), WorkerAction::Wait);
    assert!(st.alive);
}

#[test]
fn eleventh_request_waits_for_room() {
    let mut q: RequestQueue<u32> = RequestQueue::new();
    for i in 0..10u32 {
        assert_eq!(q.try_send(i), Ok(()));
    }
    assert_eq!(q.len(), QUEUE_CAPACITY);
    assert_eq!(q.try_send(10), Err(10));
    assert_eq!(q.recv(), Some(0));
    assert_eq!(q.try_send(10), Ok(()));
}

#[test]
fn queue_is_first_in_first_out() {
    let mut q: RequestQueue<&str> = RequestQueue::new();
    q.try_send("a").unwrap();
    q.try_send("b").unwrap();
    q.try_send("c").unwrap();
    assert_eq!(q.recv(), Some("a"));
    assert_eq!(q.recv(), Some("b"));
    assert_eq!(q.recv(), Some("c"));
    assert_eq!(q.recv(), None);
}

#[test]
fn slot_spawns_once_then_reuses() {
    let mut slot = RuntimeSlot::new();
    assert!(!slot.is_live());
    assert_eq!(slot.get_runtime(), SlotDecision::Spawn(0));
    assert_eq!(slot.get_runtime(), SlotDecision::Reuse(0));
    assert_eq!(slot.get_runtime(), SlotDecision::Reuse(0));
    assert!(slot.is_live());
}

#[test]
fn slot_empties_when_worker_closes_and_respawns() {
    let mut slot = RuntimeSlot::new();
    assert_eq!(slot.get_runtime(), SlotDecision::Spawn(0));
    slot.worker_closed(0);
    assert!(!slot.is_live());
    assert_eq!(slot.get_runtime(), SlotDecision::Spawn(1));
}

#[test]
fn closing_a_stale_worker_keeps_the_live_one() {
    let mut slot = RuntimeSlot::new();
    assert_eq!(slot.get_runtime(), SlotDecision::Spawn(0));
    slot.worker_closed(0);
    assert_eq!(slot.get_runtime(), SlotDecision::Spawn(1));
    slot.worker_closed(0);
    assert_eq!(slot.get_runtime(), SlotDecision::Reuse(1));
}
