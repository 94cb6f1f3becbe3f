use std::time::Duration;

use wallet::error::AppError;
use wallet::throttle::{lock_duration, normalize, LoginThrottle, FREE_ATTEMPTS, FORGET_AFTER_MS, MAX_LOCK_MS};

#[test]
fn allows_attempts_below_the_threshold() {
    let mut throttle = LoginThrottle::default();
    for _ in 0..FREE_ATTEMPTS - 1 {
        throttle.record_failure("alice", 1_000);
    }
    assert!(throttle.ensure_allowed("alice", 1_000).is_ok());
}

#[test]
fn locks_after_too_many_failures() {
    let mut throttle = LoginThrottle::default();
    for _ in 0..FREE_ATTEMPTS {
        throttle.record_failure("alice", 1_000);
    }
    assert!(matches!(
        throttle.ensure_allowed("alice", 1_000),
        Err(AppError::TooManyAttempts)
    ));
    assert!(matches!(
        throttle.ensure_allowed("  ALICE ", 1_000),
        Err(AppError::TooManyAttempts)
    ));
    assert!(throttle.ensure_allowed("bob", 1_000).is_ok());
}

#[test]
fn success_clears_the_counter() {
    let mut throttle = LoginThrottle::default();
    for _ in 0..FREE_ATTEMPTS {
        throttle.record_failure("alice", 1_000);
    }
    throttle.record_success("alice");
    assert!(throttle.ensure_allowed("alice", 1_000).is_ok());
}

#[test]
fn lock_duration_backs_off_exponentially_with_a_cap() {
    assert_eq!(Duration::from_millis(lock_duration(FREE_ATTEMPTS)), Duration::from_secs(30));
    assert_eq!(Duration::from_millis(lock_duration(FREE_ATTEMPTS + 1)), Duration::from_secs(60));
    assert_eq!(Duration::from_millis(lock_duration(FREE_ATTEMPTS + 2)), Duration::from_secs(120));
    assert_eq!(
        Duration::from_millis(lock_duration(FREE_ATTEMPTS + 40)),
        Duration::from_millis(MAX_LOCK_MS)
    );
}

#[test]
fn the_lockout_ends_when_its_duration_has_passed() {
    let mut throttle = LoginThrottle::default();
    for _ in 0..FREE_ATTEMPTS {
        throttle.record_failure("alice", 10_000);
    }
    assert!(throttle.ensure_allowed("alice", 10_000 + 29_999).is_err());
    assert!(throttle.ensure_allowed("alice", 10_000 + 30_000).is_ok());
}

#[test]
fn old_failures_are_forgiven() {
    let mut throttle = LoginThrottle::default();
    for _ in 0..FREE_ATTEMPTS + 10 {
        throttle.record_failure("alice", 0);
    }
    assert!(throttle.ensure_allowed("alice", FORGET_AFTER_MS).is_ok());
    // The counter starts over: one failure does not lock again.
    throttle.record_failure("alice", FORGET_AFTER_MS);
    assert!(throttle.ensure_allowed("alice", FORGET_AFTER_MS).is_ok());
}

#[test]
fn usernames_are_keyed_trimmed_and_lower_case() {
    assert_eq!(normalize("  ALICE "), "alice");
    assert_eq!(lock_duration(0), 30_000);
    assert_eq!(lock_duration(FREE_ATTEMPTS + 5), MAX_LOCK_MS);
}
