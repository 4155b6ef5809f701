use keyline_design::watch::{Action, Notification, WatchState, RECOVERY_DELAY_SECS};

#[test]
fn loop_starts_idle() {
    assert_eq!(WatchState::new(), WatchState::Idle);
    assert!(WatchState::new().is_subscribed());
}

#[test]
fn two_modifies_regenerate_once() {
    let mut state = WatchState::new();
    let first = state.handle(Notification::Modify);
    assert_eq!(first, Action::Nothing);
    assert_eq!(state, WatchState::Armed);
    let second = state.handle(Notification::Modify);
    assert_eq!(second, Action::Regenerate);
    assert_eq!(state, WatchState::Idle);
}

#[test]
fn two_modifies_regenerate_once_when_armed() {
    let mut state = WatchState::Armed;
    let actions = [state.handle(Notification::Modify), state.handle(Notification::Modify)];
    assert_eq!(actions.iter().filter(|a| **a == Action::Regenerate).count(), 1);
    assert_eq!(state, WatchState::Armed);
}

#[test]
fn seven_modifies_regenerate_three_times() {
    let mut state = WatchState::new();
    let mut runs = 0;
    for _ in 0..7 {
        if state.handle(Notification::Modify) == Action::Regenerate {
            runs += 1;
        }
    }
    assert_eq!(runs, 3);
    assert_eq!(state, WatchState::Armed);
}

#[test]
fn other_notifications_change_nothing() {
    for start in [WatchState::Idle, WatchState::Armed, WatchState::Deleted] {
        let mut state = start;
        assert_eq!(state.handle(Notification::Other), Action::Nothing);
        assert_eq!(state, start);
    }
}

#[test]
fn delete_asks_for_recovery_in_every_state() {
    for start in [WatchState::Idle, WatchState::Armed, WatchState::Deleted] {
        let mut state = start;
        assert_eq!(state.handle(Notification::Delete), Action::Recover);
        assert_eq!(state, WatchState::Deleted);
        assert!(!state.is_subscribed());
    }
}

#[test]
fn recovery_arms_the_loop() {
    let mut state = WatchState::new();
    state.handle(Notification::Delete);
    state.recovered(true);
    assert_eq!(state, WatchState::Armed);
    assert!(state.is_subscribed());
    assert_eq!(state.handle(Notification::Modify), Action::Regenerate);
}

#[test]
fn failed_recovery_leaves_the_loop_unsubscribed() {
    let mut state = WatchState::Armed;
    state.handle(Notification::Delete);
    state.recovered(false);
    assert_eq!(state, WatchState::Deleted);
    assert!(!state.is_subscribed());
    assert_eq!(state.handle(Notification::Modify), Action::Nothing);
    assert_eq!(state, WatchState::Deleted);
}

#[test]
fn recovery_outcome_means_nothing_without_a_deletion() {
    let mut state = WatchState::Idle;
    state.recovered(true);
    assert_eq!(state, WatchState::Idle);
    let mut state = WatchState::Armed;
    state.recovered(false);
    assert_eq!(state, WatchState::Armed);
}

#[test]
fn recovery_waits_five_seconds() {
    assert_eq!(RECOVERY_DELAY_SECS, 5);
}
