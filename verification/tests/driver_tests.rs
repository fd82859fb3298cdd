use particle_sim::driver::{keep_running, next_phase, Phase, RunEvent};

#[test]
fn zero_duration_never_enters_loop() {
    assert!(!keep_running(0, 0));
    assert!(!keep_running(1, 0));
    assert!(!keep_running(u64::MAX, 0));
}

#[test]
fn elapsed_deadline_stops_loop() {
    assert!(keep_running(0, 10));
    assert!(keep_running(9, 10));
    assert!(!keep_running(10, 10));
    assert!(!keep_running(11, 10));
}

#[test]
fn run_lifecycle_advances_in_order() {
    let p = Phase::Idle;
    let p = next_phase(p, RunEvent::TasksSpawned);
    assert_eq!(p, Phase::Running);
    let p = next_phase(p, RunEvent::DeadlineElapsed);
    assert_eq!(p, Phase::Draining);
    let p = next_phase(p, RunEvent::TasksJoined);
    assert_eq!(p, Phase::Done);
}

#[test]
fn out_of_order_events_leave_phase_unchanged() {
    assert_eq!(next_phase(Phase::Idle, RunEvent::DeadlineElapsed), Phase::Idle);
    assert_eq!(next_phase(Phase::Idle, RunEvent::TasksJoined), Phase::Idle);
    assert_eq!(next_phase(Phase::Running, RunEvent::TasksSpawned), Phase::Running);
    assert_eq!(next_phase(Phase::Running, RunEvent::TasksJoined), Phase::Running);
    assert_eq!(next_phase(Phase::Draining, RunEvent::TasksSpawned), Phase::Draining);
    assert_eq!(next_phase(Phase::Draining, RunEvent::DeadlineElapsed), Phase::Draining);
    assert_eq!(next_phase(Phase::Done, RunEvent::TasksSpawned), Phase::Done);
    assert_eq!(next_phase(Phase::Done, RunEvent::DeadlineElapsed), Phase::Done);
    assert_eq!(next_phase(Phase::Done, RunEvent::TasksJoined), Phase::Done);
}
