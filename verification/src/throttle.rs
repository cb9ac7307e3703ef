//! Rate limiting for progress emission.
//!
//! A `ProgressThrottle` remembers the instant of the last emitted progress
//! update and decides, each time a chunk arrives, whether another update may
//! be emitted now.  Instants are plain milliseconds handed in by the caller,
//! so the policy is a pure state transition with no clock of its own.

use vstd::prelude::*;

verus! {

/// Milliseconds that must elapse after an emission before the next one.
pub const EMIT_INTERVAL_MS: u64 = 1000;

/// The emission policy: an update is due at `now_ms` exactly when a full
/// interval has passed since `last_emit_ms`.
pub open spec fn spec_emits(last_emit_ms: int, now_ms: int) -> bool {
    now_ms - last_emit_ms >= EMIT_INTERVAL_MS
}

/// Tracks the instant of the last emitted progress update.
pub struct ProgressThrottle {
    last_emit_ms: u64,
}

impl ProgressThrottle {
    /// The instant of the last emission (initially the transfer's start).
    pub closed spec fn last_emit(self) -> int {
        self.last_emit_ms as int
    }

    /// A fresh throttle whose baseline is the transfer's start time.
    pub fn new(start_ms: u64) -> (t: Self)
        ensures
            t.last_emit() == start_ms as int,
    {
        ProgressThrottle { last_emit_ms: start_ms }
    }

    /// Decides whether to emit at `now_ms`: true exactly when a full
    /// interval has elapsed since the last emission, and in that case the
    /// baseline moves to `now_ms`.
    pub fn should_emit(&mut self, now_ms: u64) -> (emit: bool)
        ensures
            emit == spec_emits(old(self).last_emit(), now_ms as int),
            final(self).last_emit() == if emit {
                now_ms as int
            } else {
                old(self).last_emit()
            },
    {
        if now_ms >= EMIT_INTERVAL_MS && now_ms - EMIT_INTERVAL_MS >= self.last_emit_ms {
            self.last_emit_ms = now_ms;
            true
        } else {
            false
        }
    }
}

} // verus!
