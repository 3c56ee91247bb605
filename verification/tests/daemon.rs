use autokey_rs::supervisor::Supervisor;
use autokey_rs::supervisor::SupervisorPhase;
use autokey_rs::supervisor::SupervisorStep;
use autokey_rs::supervisor::MIN_SLEEP_MS;

#[test]
fn crash_loop_doubles_the_delay_each_time() {
    let mut s = Supervisor::new();
    assert_eq!(s.next_step(), SupervisorStep::Fork { delay_ms: 0 });
    s.on_child_forked(11);
    assert_eq!(s.phase, SupervisorPhase::MonitoringChild(11));

    // The child dies inside the window, repeatedly: the delay strictly
    // doubles each time.
    s.on_child_exited(false);
    assert_eq!(s.next_step(), SupervisorStep::Fork { delay_ms: MIN_SLEEP_MS });
    s.on_child_forked(12);
    s.on_child_exited(false);
    assert_eq!(s.next_step(), SupervisorStep::Fork { delay_ms: 2 * MIN_SLEEP_MS });
    s.on_child_forked(13);
    s.on_child_exited(false);
    assert_eq!(s.next_step(), SupervisorStep::Fork { delay_ms: 4 * MIN_SLEEP_MS });
}

#[test]
fn surviving_the_window_resets_the_delay() {
    let mut s = Supervisor::new();
    s.next_step();
    s.on_child_forked(11);
    s.on_child_exited(false);
    s.next_step();
    s.on_child_forked(12);
    // This child outlives the current delay window, so the next crash
    // restarts at the minimum delay again.
    s.on_child_exited(true);
    assert_eq!(s.next_step(), SupervisorStep::Fork { delay_ms: MIN_SLEEP_MS });
}

#[test]
fn terminate_signal_forwards_and_shuts_down() {
    let mut s = Supervisor::new();
    s.next_step();
    s.on_child_forked(42);
    let forwarded = s.on_signal(true);
    assert_eq!(forwarded, Some(42));
    assert_eq!(s.phase, SupervisorPhase::ShuttingDown);
    assert_eq!(s.next_step(), SupervisorStep::Stop);
}

#[test]
fn quit_signal_forwards_and_restarts() {
    let mut s = Supervisor::new();
    s.next_step();
    s.on_child_forked(42);
    let forwarded = s.on_signal(false);
    assert_eq!(forwarded, Some(42));
    assert_eq!(s.phase, SupervisorPhase::StartingChild);
    assert_eq!(s.next_step(), SupervisorStep::Fork { delay_ms: 0 });
    // With no child monitored, a signal is forwarded to nobody.
    let mut fresh = Supervisor::new();
    assert_eq!(fresh.on_signal(false), None);
}
