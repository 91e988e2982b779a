use zerowhats::config::Config;
use zerowhats::lock::{effective_auto_lock_minutes, password_required, LockState};

#[test]
fn auto_lock_disabled_without_password() {
    let mut cfg = Config::default();
    cfg.auto_lock_minutes = Some(10);
    assert_eq!(effective_auto_lock_minutes(&cfg), 0);
}

#[test]
fn auto_lock_enabled_with_password() {
    let mut cfg = Config::default();
    cfg.password_hash = Some("hash".into());
    cfg.auto_lock_minutes = Some(10);
    assert_eq!(effective_auto_lock_minutes(&cfg), 10);
}

#[test]
fn auto_lock_none_with_password_returns_zero() {
    let mut cfg = Config::default();
    cfg.password_hash = Some("hash".into());
    cfg.auto_lock_minutes = None;
    assert_eq!(effective_auto_lock_minutes(&cfg), 0);
}

#[test]
fn auto_lock_zero_with_password() {
    let mut cfg = Config::default();
    cfg.password_hash = Some("hash".into());
    cfg.auto_lock_minutes = Some(0);
    assert_eq!(effective_auto_lock_minutes(&cfg), 0);
}

#[test]
fn auto_lock_default_config() {
    let cfg = Config::default();
    assert_eq!(effective_auto_lock_minutes(&cfg), 0);
}

#[test]
fn cooldown_starts_at_third_failure_and_caps_at_thirty_seconds() {
    let mut s = LockState::new(1_000);
    s.record_failed_attempt(1_000);
    s.record_failed_attempt(1_000);
    assert_eq!(s.fail_count, 2);
    assert!(!s.is_locked_out(1_000));
    s.record_failed_attempt(1_000);
    assert_eq!(s.lockout_until_ms, 2_000);
    assert!(s.is_locked_out(1_999));
    assert!(!s.is_locked_out(2_000));
    s.record_failed_attempt(10_000);
    assert_eq!(s.lockout_until_ms, 12_000);
    s.record_failed_attempt(10_000);
    assert_eq!(s.lockout_until_ms, 14_000);
    s.record_failed_attempt(10_000);
    assert_eq!(s.lockout_until_ms, 18_000);
    s.record_failed_attempt(10_000);
    assert_eq!(s.lockout_until_ms, 26_000);
    s.record_failed_attempt(10_000);
    assert_eq!(s.lockout_until_ms, 40_000);
    s.record_failed_attempt(10_000);
    assert_eq!(s.lockout_until_ms, 40_000);
}

#[test]
fn fail_count_wraps_instead_of_overflowing() {
    let mut s = LockState::new(0);
    s.fail_count = u32::MAX;
    s.record_failed_attempt(5);
    assert_eq!(s.fail_count, 0);
}

#[test]
fn successful_unlock_clears_cooldown() {
    let mut s = LockState::new(0);
    s.set_locked(true);
    for _ in 0..4 {
        assert!(!s.finish_unlock(true, false, 100));
    }
    assert!(s.is_locked());
    assert!(!s.unlock_allowed(true, 100));
    assert!(s.unlock_allowed(false, 100));
    assert!(s.finish_unlock(true, true, 5_000));
    assert!(!s.is_locked());
    assert_eq!(s.fail_count, 0);
    assert!(!s.is_locked_out(5_000));
}

#[test]
fn unlock_without_password_always_succeeds() {
    let mut s = LockState::new(0);
    s.set_locked(true);
    assert!(s.finish_unlock(false, false, 7));
    assert!(!s.is_locked());
}

#[test]
fn auto_lock_due_after_configured_inactivity() {
    let mut s = LockState::new(0);
    assert!(!s.auto_lock_due(u64::MAX / 2));
    s.apply_auto_lock(2, 1_000);
    assert!(!s.auto_lock_due(120_999));
    assert!(s.auto_lock_due(121_000));
    s.record_activity(100_000);
    assert!(!s.auto_lock_due(121_000));
    assert!(!s.auto_lock_due(50));
    s.set_locked(true);
    assert!(!s.auto_lock_due(1_000_000));
}

#[test]
fn empty_or_absent_hash_needs_no_password() {
    assert!(!password_required(&None));
    assert!(!password_required(&Some(String::new())));
    assert!(password_required(&Some("$argon2id$x".to_string())));
}
