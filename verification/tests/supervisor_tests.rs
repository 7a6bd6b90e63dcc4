use portfolio_rebalancer::supervisor::{
    backend_invocation, PollEvent, Supervisor, SupervisorStatus,
};

#[test]
fn restart_cycle_after_external_kill() {
    let mut s = Supervisor::new();
    assert_eq!(s.status, SupervisorStatus::Stopped);
    assert!(s.can_start());
    s.begin_start();
    assert_eq!(s.status, SupervisorStatus::Starting);
    s.on_spawn_result(true);
    assert_eq!(s.status, SupervisorStatus::Running);
    assert!(s.handle_present);
    // the process is still alive on the first poll
    s.on_poll(PollEvent::StillRunning);
    assert_eq!(s.status, SupervisorStatus::Running);
    // it is killed externally; the next poll sees the exit
    s.on_poll(PollEvent::Exited(9));
    assert_eq!(s.status, SupervisorStatus::Exited(9));
    assert!(!s.handle_present);
    // no leftover handle blocks a new start
    assert!(s.can_start());
    s.begin_start();
    s.on_spawn_result(true);
    assert_eq!(s.status, SupervisorStatus::Running);
}

#[test]
fn spawn_failure_ends_errored() {
    let mut s = Supervisor::new();
    s.begin_start();
    s.on_spawn_result(false);
    assert_eq!(s.status, SupervisorStatus::Errored);
    assert!(!s.handle_present);
    assert!(s.can_start());
}

#[test]
fn poll_failure_is_treated_as_death() {
    let mut s = Supervisor::new();
    s.begin_start();
    s.on_spawn_result(true);
    s.on_poll(PollEvent::PollFailed);
    assert_eq!(s.status, SupervisorStatus::Errored);
    assert!(!s.handle_present);
    assert!(s.can_start());
}

#[test]
fn stop_is_idempotent() {
    let mut s = Supervisor::new();
    s.request_stop();
    assert_eq!(s.status, SupervisorStatus::Stopped);
    s.begin_start();
    s.on_spawn_result(true);
    s.request_stop();
    assert_eq!(s.status, SupervisorStatus::Stopped);
    assert!(!s.handle_present);
    s.request_stop();
    assert_eq!(s.status, SupervisorStatus::Stopped);
    assert!(s.can_start());
}

#[test]
fn running_blocks_a_second_start() {
    let mut s = Supervisor::new();
    s.begin_start();
    assert!(!s.can_start());
    s.on_spawn_result(true);
    assert!(!s.can_start());
}

#[test]
fn backend_invocation_hands_the_config_path_through() {
    let (program, args) = backend_invocation("/home/user/.portfolio_rebalancer.json");
    assert_eq!(program, "python");
    assert_eq!(args, vec!["-m", "backend.main", "--config", "/home/user/.portfolio_rebalancer.json"]);
}
