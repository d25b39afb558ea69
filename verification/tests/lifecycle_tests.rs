use dns_monitor::lifecycle::LifecycleController;
use dns_monitor::model::DnsError;

#[test]
fn starts_stopped_and_disabled() {
    let lc = LifecycleController::new();
    assert!(!lc.is_running());
    assert!(!lc.should_restore());
}

#[test]
fn second_start_returns_already_running() {
    let mut lc = LifecycleController::new();
    assert!(lc.start().is_ok());
    assert!(lc.is_running());
    let second = lc.start();
    assert!(matches!(second, Err(DnsError::AlreadyRunning)));
    let msg = match second {
        Err(e) => e.message(),
        Ok(_) => String::new(),
    };
    assert_eq!(msg, "Already running");
    // still exactly one worker's worth of run flag
    assert!(lc.is_running());
}

#[test]
fn stop_clears_both_flags() {
    let mut lc = LifecycleController::new();
    lc.start().unwrap();
    lc.stop();
    assert!(!lc.is_running());
    assert!(!lc.should_restore());
    // a start after stop succeeds again
    assert!(lc.start().is_ok());
}

#[test]
fn restore_follows_the_persisted_flag() {
    let mut lc = LifecycleController::new();
    lc.restore_from(true);
    assert!(lc.should_restore());
    assert!(!lc.is_running());
    if lc.should_restore() {
        lc.start().unwrap();
    }
    assert!(lc.is_running());

    let mut cold = LifecycleController::new();
    cold.restore_from(false);
    assert!(!cold.should_restore());
}
