//! App-lock state: whether the app is locked, the brute-force cooldown on
//! unlock attempts, and the inactivity clock behind auto-lock. Times are
//! milliseconds on a monotonic clock that the caller reads.

use vstd::arithmetic::power2::{lemma2_to64, pow2};
use vstd::prelude::*;

use crate::config::Config;

verus! {

/// Auto-lock minutes that actually apply: 0 (disabled) unless a password is set.
pub open spec fn effective_minutes(cfg: Config) -> u32 {
    if cfg.password_hash is Some {
        match cfg.auto_lock_minutes {
            Some(m) => m,
            None => 0,
        }
    } else {
        0
    }
}

/// Auto-lock minutes that actually apply: 0 (disabled) unless a password is set.
pub fn effective_auto_lock_minutes(cfg: &Config) -> (r: u32)
    ensures
        r == effective_minutes(*cfg),
{
    if cfg.password_hash.is_some() {
        match cfg.auto_lock_minutes {
            Some(m) => m,
            None => 0,
        }
    } else {
        0
    }
}

/// Whether a stored password hash asks for a password at all: an absent or
/// empty hash always unlocks.
pub open spec fn requires_password(hash: Option<String>) -> bool {
    hash is Some && hash->0@.len() > 0
}

/// Whether unlocking needs a password check (see [`requires_password`]).
pub fn password_required(hash: &Option<String>) -> (r: bool)
    ensures
        r == requires_password(*hash),
{
    match hash {
        Some(h) => !h.as_str().is_empty(),
        None => false,
    }
}

/// Seconds of cooldown after `count` consecutive failed unlock attempts:
/// none for the first two, then `2^(count - 3)` seconds, with the exponent
/// capped at 5 and the result capped at 30.
pub open spec fn cooldown_secs(count: u32) -> nat {
    if count < 3 {
        0
    } else {
        let e: nat = if count - 3 < 5 {
            (count - 3) as nat
        } else {
            5
        };
        if pow2(e) < 30 {
            pow2(e)
        } else {
            30
        }
    }
}

/// The cooldown grows with the number of failures and never exceeds 30 s.
pub proof fn lemma_cooldown_monotone(a: u32, b: u32)
    requires
        a <= b,
    ensures
        cooldown_secs(a) <= cooldown_secs(b),
        cooldown_secs(b) <= 30,
{
    lemma2_to64();
    if a >= 3 {
        let ea: nat = if a - 3 < 5 {
            (a - 3) as nat
        } else {
            5
        };
        let eb: nat = if b - 3 < 5 {
            (b - 3) as nat
        } else {
            5
        };
        if ea < eb {
            vstd::arithmetic::power2::lemma_pow2_strictly_increases(ea, eb);
        }
    }
}

/// Lock, cooldown and inactivity state shared by the whole app.
pub struct LockState {
    /// Whether the app is currently locked.
    pub locked: bool,
    /// Consecutive failed unlock attempts.
    pub fail_count: u32,
    /// No unlock attempt is accepted before this time.
    pub lockout_until_ms: u64,
    /// Configured auto-lock delay; 0 disables auto-lock.
    pub auto_lock_minutes: u32,
    /// Time of the last user activity in any app window.
    pub last_activity_ms: u64,
}

impl LockState {
    /// An unlocked state with no failures, no cooldown and the inactivity
    /// clock started at `now_ms`.
    pub fn new(now_ms: u64) -> (r: LockState)
        ensures
            !r.locked,
            r.fail_count == 0,
            r.lockout_until_ms == now_ms,
            r.auto_lock_minutes == 0,
            r.last_activity_ms == now_ms,
    {
        LockState {
            locked: false,
            fail_count: 0,
            lockout_until_ms: now_ms,
            auto_lock_minutes: 0,
            last_activity_ms: now_ms,
        }
    }

    pub fn is_locked(&self) -> (r: bool)
        ensures
            r == self.locked,
    {
        self.locked
    }

    pub fn set_locked(&mut self, value: bool)
        ensures
            final(self).locked == value,
            final(self).fail_count == old(self).fail_count,
            final(self).lockout_until_ms == old(self).lockout_until_ms,
            final(self).auto_lock_minutes == old(self).auto_lock_minutes,
            final(self).last_activity_ms == old(self).last_activity_ms,
    {
        self.locked = value;
    }

    /// Counts a failed attempt; from the third consecutive failure on, no
    /// attempt is accepted for `cooldown_secs` seconds from `now_ms`.
    pub fn record_failed_attempt(&mut self, now_ms: u64)
        requires
            now_ms <= u64::MAX - 30_000,
        ensures
            final(self).fail_count == old(self).fail_count.wrapping_add(1),
            final(self).lockout_until_ms == (if final(self).fail_count >= 3 {
                (now_ms + cooldown_secs(final(self).fail_count) * 1000) as u64
            } else {
                old(self).lockout_until_ms
            }),
            final(self).locked == old(self).locked,
            final(self).auto_lock_minutes == old(self).auto_lock_minutes,
            final(self).last_activity_ms == old(self).last_activity_ms,
    {
        let count = self.fail_count.wrapping_add(1);
        self.fail_count = count;
        if count >= 3 {
            let shift: u64 = if count - 3 < 5 {
                (count - 3) as u64
            } else {
                5
            };
            proof {
                lemma2_to64();
                vstd::bits::lemma_u64_shl_is_mul(1, shift);
            }
            let doubled: u64 = 1u64 << shift;
            let secs: u64 = if doubled < 30 {
                doubled
            } else {
                30
            };
            self.lockout_until_ms = now_ms + secs * 1000;
        }
    }

    /// Whether unlock attempts are refused at `now_ms`.
    pub fn is_locked_out(&self, now_ms: u64) -> (r: bool)
        ensures
            r == (now_ms < self.lockout_until_ms),
    {
        now_ms < self.lockout_until_ms
    }

    /// Clears the failure count and any cooldown.
    pub fn reset_fail_count(&mut self, now_ms: u64)
        ensures
            final(self).fail_count == 0,
            final(self).lockout_until_ms == now_ms,
            final(self).locked == old(self).locked,
            final(self).auto_lock_minutes == old(self).auto_lock_minutes,
            final(self).last_activity_ms == old(self).last_activity_ms,
    {
        self.fail_count = 0;
        self.lockout_until_ms = now_ms;
    }

    /// Resets the inactivity clock.
    pub fn record_activity(&mut self, now_ms: u64)
        ensures
            final(self).last_activity_ms == now_ms,
            final(self).locked == old(self).locked,
            final(self).fail_count == old(self).fail_count,
            final(self).lockout_until_ms == old(self).lockout_until_ms,
            final(self).auto_lock_minutes == old(self).auto_lock_minutes,
    {
        self.last_activity_ms = now_ms;
    }

    /// Re-arms auto-lock with `minutes` (0 disables it) and restarts the
    /// inactivity clock, as applying the saved config does.
    pub fn apply_auto_lock(&mut self, minutes: u32, now_ms: u64)
        ensures
            final(self).auto_lock_minutes == minutes,
            final(self).last_activity_ms == now_ms,
            final(self).locked == old(self).locked,
            final(self).fail_count == old(self).fail_count,
            final(self).lockout_until_ms == old(self).lockout_until_ms,
    {
        self.auto_lock_minutes = minutes;
        self.last_activity_ms = now_ms;
    }

    /// Whether the watcher should lock now: auto-lock is on, the app is not
    /// already locked, and at least the configured minutes have passed since
    /// the last activity.
    pub fn auto_lock_due(&self, now_ms: u64) -> (r: bool)
        ensures
            r == (self.auto_lock_minutes != 0 && !self.locked && (if now_ms >= self.last_activity_ms {
                now_ms - self.last_activity_ms
            } else {
                0
            }) >= self.auto_lock_minutes as int * 60_000),
    {
        if self.auto_lock_minutes == 0 || self.locked {
            return false;
        }
        let elapsed: u64 = if now_ms >= self.last_activity_ms {
            now_ms - self.last_activity_ms
        } else {
            0
        };
        elapsed >= (self.auto_lock_minutes as u64) * 60_000
    }

    /// Whether a password check may be attempted at all: never while a
    /// password is set and the cooldown is running.
    pub fn unlock_allowed(&self, has_password: bool, now_ms: u64) -> (r: bool)
        ensures
            r == !(has_password && now_ms < self.lockout_until_ms),
    {
        !(has_password && self.is_locked_out(now_ms))
    }

    /// Completes an unlock attempt whose password check gave `verified`. With
    /// no password set every attempt succeeds. Success unlocks the app and
    /// clears the cooldown; a failure with a password set is counted.
    /// Returns whether the app was unlocked.
    pub fn finish_unlock(&mut self, has_password: bool, verified: bool, now_ms: u64) -> (r: bool)
        requires
            now_ms <= u64::MAX - 30_000,
        ensures
            r == (!has_password || verified),
            r ==> !final(self).locked && final(self).fail_count == 0
                && final(self).lockout_until_ms == now_ms,
            !r ==> {
                &&& final(self).locked == old(self).locked
                &&& final(self).fail_count == old(self).fail_count.wrapping_add(1)
                &&& final(self).lockout_until_ms == (if final(self).fail_count >= 3 {
                    (now_ms + cooldown_secs(final(self).fail_count) * 1000) as u64
                } else {
                    old(self).lockout_until_ms
                })
            },
            final(self).auto_lock_minutes == old(self).auto_lock_minutes,
            final(self).last_activity_ms == old(self).last_activity_ms,
    {
        let ok = !has_password || verified;
        if ok {
            self.reset_fail_count(now_ms);
            self.set_locked(false);
        } else {
            self.record_failed_attempt(now_ms);
        }
        ok
    }
}

} // verus!
