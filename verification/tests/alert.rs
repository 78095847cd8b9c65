use netpulse::alert::AlertState;

#[test]
fn cooldown_idempotence() {
    // Cooldown 60s: t=0 fires (no prior record), t=30 suppresses with no
    // mutation, t=65 fires again and refreshes the timestamp.
    let mut state = AlertState::new();
    assert!(state.should_alert("dev-1", 0, 60));
    assert!(!state.should_alert("dev-1", 30, 60));
    assert!(state.should_alert("dev-1", 65, 60));
    // The timestamp was refreshed to 65: 30s later is still suppressed,
    // which it would not be had the record kept t=0.
    assert!(!state.should_alert("dev-1", 95, 60));
    assert!(state.should_alert("dev-1", 125, 60));
}

#[test]
fn recovery_clears_once() {
    let mut state = AlertState::new();
    // Never-failed device: recovery is a repeatable no-op.
    assert!(!state.mark_recovered("dev-1"));
    assert!(!state.mark_recovered("dev-1"));
    // Failed device: recovery fires exactly once, then reports false until
    // a new failure record is created.
    assert!(state.should_alert("dev-1", 100, 60));
    assert!(state.mark_recovered("dev-1"));
    assert!(!state.mark_recovered("dev-1"));
    assert!(!state.mark_recovered("dev-1"));
    assert!(state.should_alert("dev-1", 110, 60));
    assert!(state.mark_recovered("dev-1"));
}

#[test]
fn recovery_forgets_cooldown() {
    // Once recovered the record is gone, so a fresh failure fires at once
    // even inside what would have been the cooldown window.
    let mut state = AlertState::new();
    assert!(state.should_alert("dev-1", 0, 60));
    assert!(state.mark_recovered("dev-1"));
    assert!(state.should_alert("dev-1", 10, 60));
}

#[test]
fn devices_are_tracked_independently() {
    let mut state = AlertState::new();
    assert!(state.should_alert("dev-1", 0, 60));
    assert!(state.should_alert("dev-2", 0, 60));
    assert!(!state.should_alert("dev-1", 30, 60));
    assert!(state.mark_recovered("dev-2"));
    assert!(!state.mark_recovered("dev-2"));
    assert!(!state.should_alert("dev-1", 59, 60));
    assert!(state.should_alert("dev-1", 60, 60));
}
