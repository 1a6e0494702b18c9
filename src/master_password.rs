//! Lock state and auto-lock timer of the master password.
use vstd::prelude::*;
use std::time::{Duration, Instant};

verus! {

/// `std::time::Instant`, held opaque: a reading of the monotonic clock.
#[verifier::external_type_specification]
#[verifier::external_body]
pub struct ExInstant(Instant);

/// Relies on `Instant::now`: some instant of the monotonic clock; nothing
/// is known of which.
pub assume_specification[ Instant::now ]() -> Instant;

/// Relies on `Instant::elapsed`: the time since the instant, which depends
/// on the clock.
pub assume_specification[ Instant::elapsed ](i: &Instant) -> Duration;

/// Relies on `Duration::as_millis`: the whole milliseconds of a duration.
pub assume_specification[ Duration::as_millis ](d: &Duration) -> u128;

/// The lock state as plain values.
pub struct LockState {
    pub locked: bool,
    /// Milliseconds from the start instant to the last recorded activity.
    pub last_activity_ms: u64,
    /// Auto-lock timeout in seconds; 0 disables auto-lock.
    pub timeout_seconds: u64,
}

/// Whole seconds from `last_ms` to `now_ms`, zero if `now_ms` is earlier.
pub open spec fn idle_seconds(last_ms: u64, now_ms: u64) -> int {
    if now_ms >= last_ms {
        (now_ms - last_ms) / 1000
    } else {
        0
    }
}

/// Auto-lock is enabled and the idle time has reached the timeout.
pub open spec fn timed_out(s: LockState, now_ms: u64) -> bool {
    s.timeout_seconds != 0 && idle_seconds(s.last_activity_ms, now_ms) >= s.timeout_seconds
}

/// Lock state of the application and its auto-lock timer.
pub struct MasterPasswordState {
    locked: bool,
    last_activity_ms: u64,
    timeout_seconds: u64,
    start_instant: Instant,
}

impl View for MasterPasswordState {
    type V = LockState;

    closed spec fn view(&self) -> LockState {
        LockState {
            locked: self.locked,
            last_activity_ms: self.last_activity_ms,
            timeout_seconds: self.timeout_seconds,
        }
    }
}

impl MasterPasswordState {
    /// Unlocked, auto-lock disabled, activity at the start instant.
    pub fn new() -> (r: Self)
        ensures
            !r@.locked,
            r@.last_activity_ms == 0,
            r@.timeout_seconds == 0,
    {
        MasterPasswordState {
            locked: false,
            last_activity_ms: 0,
            timeout_seconds: 0,
            start_instant: Instant::now(),
        }
    }

    /// Milliseconds since the start instant, truncated to 64 bits.
    fn elapsed_ms(&self) -> u64 {
        let d = self.start_instant.elapsed();
        let ms = d.as_millis();
        #[verifier::truncate]
        (ms as u64)
    }

    /// Records activity at `now_ms` milliseconds after the start instant.
    pub fn record_activity_at(&mut self, now_ms: u64)
        ensures
            final(self)@.last_activity_ms == now_ms,
            final(self)@.locked == old(self)@.locked,
            final(self)@.timeout_seconds == old(self)@.timeout_seconds,
    {
        self.last_activity_ms = now_ms;
    }

    /// Records activity now (call on user interaction).
    pub fn update_activity(&mut self)
        ensures
            final(self)@.locked == old(self)@.locked,
            final(self)@.timeout_seconds == old(self)@.timeout_seconds,
    {
        let now = self.elapsed_ms();
        self.record_activity_at(now);
    }

    /// Whether the auto-lock timeout has expired at `now_ms` milliseconds
    /// after the start instant.
    pub fn timeout_expired_at(&self, now_ms: u64) -> (r: bool)
        ensures
            r == timed_out(self@, now_ms),
    {
        if self.timeout_seconds == 0 {
            return false;
        }
        let elapsed_secs = now_ms.saturating_sub(self.last_activity_ms) / 1000;
        elapsed_secs >= self.timeout_seconds
    }

    /// Whether the auto-lock timeout has expired now: the answer of
    /// `timeout_expired_at` for the clock's current reading. Never true while
    /// auto-lock is disabled.
    pub fn check_timeout(&self) -> (r: bool)
        ensures
            self@.timeout_seconds == 0 ==> !r,
            exists|now_ms: u64| r == #[trigger] timed_out(self@, now_ms),
    {
        if self.timeout_seconds == 0 {
            assert(!timed_out(self@, 0));
            return false;
        }
        let now = self.elapsed_ms();
        let r = self.timeout_expired_at(now);
        assert(r == timed_out(self@, now));
        r
    }

    /// Whether the application is locked.
    pub fn is_locked(&self) -> (r: bool)
        ensures
            r == self@.locked,
    {
        self.locked
    }

    /// Locks or unlocks the application.
    pub fn set_locked(&mut self, locked: bool)
        ensures
            final(self)@.locked == locked,
            final(self)@.last_activity_ms == old(self)@.last_activity_ms,
            final(self)@.timeout_seconds == old(self)@.timeout_seconds,
    {
        self.locked = locked;
    }

    /// Sets the auto-lock timeout in seconds; 0 disables auto-lock.
    pub fn set_timeout(&mut self, seconds: u64)
        ensures
            final(self)@.timeout_seconds == seconds,
            final(self)@.locked == old(self)@.locked,
            final(self)@.last_activity_ms == old(self)@.last_activity_ms,
    {
        self.timeout_seconds = seconds;
    }

    /// The current auto-lock timeout in seconds.
    pub fn get_timeout(&self) -> (r: u64)
        ensures
            r == self@.timeout_seconds,
    {
        self.timeout_seconds
    }
}

/// The master password status shown to the user.
pub struct MasterPasswordStatus {
    pub is_set: bool,
    pub is_locked: bool,
    pub timeout_seconds: u64,
}

impl MasterPasswordStatus {
    /// The status of `state`; `is_set` tells whether a master password is
    /// configured.
    pub fn new(state: &MasterPasswordState, is_set: bool) -> (r: Self)
        ensures
            r.is_set == is_set,
            r.is_locked == state@.locked,
            r.timeout_seconds == state@.timeout_seconds,
    {
        MasterPasswordStatus {
            is_set,
            is_locked: state.is_locked(),
            timeout_seconds: state.get_timeout(),
        }
    }
}

} // verus!
