//! Rate control: cumulative expected-versus-elapsed sleeping.

use vstd::prelude::*;

verus! {

/// Speed limits, in bytes per second; `None` disables a limiter.
#[derive(Debug, Clone, Copy, PartialEq, Eq, Structural)]
pub struct ThrottleConfig {
    pub global_limit_bytes_per_sec: Option<u64>,
    pub per_task_limit_bytes_per_sec: Option<u64>,
}

impl Default for ThrottleConfig {
    fn default() -> (c: ThrottleConfig)
        ensures
            c.global_limit_bytes_per_sec is None,
            c.per_task_limit_bytes_per_sec is None,
    {
        ThrottleConfig { global_limit_bytes_per_sec: None, per_task_limit_bytes_per_sec: None }
    }
}

/// Milliseconds a limiter owes after admitting `bytes` cumulative bytes in
/// `elapsed_ms` milliseconds: the time by which the expected pace is ahead
/// of the clock.
pub open spec fn spec_reserve_sleep(bytes: u64, limit: u64, elapsed_ms: u64) -> int {
    if limit == 0 {
        0
    } else {
        let expected_ms = bytes as int * 1000 / limit as int;
        if expected_ms > elapsed_ms as int {
            expected_ms - elapsed_ms as int
        } else {
            0
        }
    }
}

/// The owed sleep, clamped to what a `u64` can hold.
pub open spec fn spec_clamped_sleep(bytes: u64, limit: u64, elapsed_ms: u64) -> int {
    let owed = spec_reserve_sleep(bytes, limit, elapsed_ms);
    if owed <= u64::MAX as int {
        owed
    } else {
        u64::MAX as int
    }
}

/// The sleep an optional limiter owes; an absent limiter owes nothing.
pub open spec fn spec_owed_opt(s: Option<ThrottleState>, elapsed_ms: u64) -> int {
    match s {
        Some(st) => spec_clamped_sleep(st.bytes, st.limit_bytes_per_sec, elapsed_ms),
        None => 0,
    }
}

/// One limiter: a cumulative byte counter against a fixed limit.
#[derive(Debug, Clone, Copy, PartialEq, Eq, Structural)]
pub struct ThrottleState {
    pub bytes: u64,
    pub limit_bytes_per_sec: u64,
}

impl ThrottleState {
    pub fn new(limit_bytes_per_sec: u64) -> (s: ThrottleState)
        ensures
            s.bytes == 0,
            s.limit_bytes_per_sec == limit_bytes_per_sec,
    {
        ThrottleState { bytes: 0, limit_bytes_per_sec }
    }

    /// Admit `bytes` further bytes and return how many milliseconds the
    /// caller must sleep, given that `elapsed_ms` milliseconds have passed
    /// since this limiter started.
    pub fn reserve_sleep(&mut self, bytes: u64, elapsed_ms: u64) -> (sleep_ms: u64)
        ensures
            final(self).limit_bytes_per_sec == old(self).limit_bytes_per_sec,
            final(self).bytes as int == if old(self).bytes as int + bytes as int <= u64::MAX as int {
                old(self).bytes as int + bytes as int
            } else {
                u64::MAX as int
            },
            sleep_ms as int == spec_clamped_sleep(
                final(self).bytes,
                final(self).limit_bytes_per_sec,
                elapsed_ms,
            ),
    {
        self.bytes = if u64::MAX - self.bytes >= bytes {
            self.bytes + bytes
        } else {
            u64::MAX
        };
        if self.limit_bytes_per_sec == 0 {
            return 0;
        }
        let expected_ms: u128 = (self.bytes as u128) * 1000 / (self.limit_bytes_per_sec as u128);
        if expected_ms > elapsed_ms as u128 {
            let gap: u128 = expected_ms - elapsed_ms as u128;
            if gap > u64::MAX as u128 {
                u64::MAX
            } else {
                gap as u64
            }
        } else {
            0
        }
    }
}

/// Over the whole life of a limiter with a positive limit, the admitted
/// bytes stay within the limit times the elapsed time once the owed sleep
/// is honored: after sleeping, `bytes * 1000 <= (elapsed + sleep + 1) *
/// limit`.
pub proof fn law_throttle_window(bytes: u64, limit: u64, elapsed_ms: u64, sleep_ms: u64)
    requires
        limit > 0,
        sleep_ms as int == spec_reserve_sleep(bytes, limit, elapsed_ms),
    ensures
        bytes as int * 1000 <= (elapsed_ms as int + sleep_ms as int + 1) * limit as int,
{
    let expected = bytes as int * 1000 / limit as int;
    assert(bytes as int * 1000 < (expected + 1) * limit as int) by (nonlinear_arith)
        requires
            limit > 0,
            expected == bytes as int * 1000 / limit as int,
    ;
    assert(elapsed_ms as int + sleep_ms as int >= expected);
    assert((expected + 1) * limit as int <= (elapsed_ms as int + sleep_ms as int + 1)
        * limit as int) by (nonlinear_arith)
        requires
            limit > 0,
            expected <= elapsed_ms as int + sleep_ms as int,
    ;
}

/// The pair of limiters a transfer answers to: one global, one per task.
#[derive(Debug, Clone, Copy, PartialEq, Eq, Structural)]
pub struct Throttle {
    pub global: Option<ThrottleState>,
    pub per_task: Option<ThrottleState>,
}

impl Throttle {
    pub fn new(global_limit: Option<u64>, per_task_limit: Option<u64>) -> (t: Throttle)
        ensures
            match t.global {
                Some(s) => global_limit == Some(s.limit_bytes_per_sec) && s.bytes == 0,
                None => global_limit is None,
            },
            match t.per_task {
                Some(s) => per_task_limit == Some(s.limit_bytes_per_sec) && s.bytes == 0,
                None => per_task_limit is None,
            },
    {
        let global = match global_limit {
            Some(limit) => Some(ThrottleState::new(limit)),
            None => None,
        };
        let per_task = match per_task_limit {
            Some(limit) => Some(ThrottleState::new(limit)),
            None => None,
        };
        Throttle { global, per_task }
    }

    /// Admit a chunk against both limiters and return exactly the longer
    /// of the two owed sleeps, in milliseconds. The caller reports each
    /// limiter's own elapsed time and performs the sleep itself.
    pub fn throttle(&mut self, bytes: u64, global_elapsed_ms: u64, per_task_elapsed_ms: u64) -> (sleep_ms: u64)
        ensures
            match (old(self).global, final(self).global) {
                (Some(o), Some(n)) => n.limit_bytes_per_sec == o.limit_bytes_per_sec
                    && n.bytes as int == if o.bytes as int + bytes as int <= u64::MAX as int {
                    o.bytes as int + bytes as int
                } else {
                    u64::MAX as int
                },
                (None, None) => true,
                _ => false,
            },
            match (old(self).per_task, final(self).per_task) {
                (Some(o), Some(n)) => n.limit_bytes_per_sec == o.limit_bytes_per_sec
                    && n.bytes as int == if o.bytes as int + bytes as int <= u64::MAX as int {
                    o.bytes as int + bytes as int
                } else {
                    u64::MAX as int
                },
                (None, None) => true,
                _ => false,
            },
            sleep_ms as int == ({
                let g = spec_owed_opt(final(self).global, global_elapsed_ms);
                let p = spec_owed_opt(final(self).per_task, per_task_elapsed_ms);
                if g >= p {
                    g
                } else {
                    p
                }
            }),
    {
        let mut max_sleep: u64 = 0;
        match &mut self.global {
            Some(state) => {
                let sleep = state.reserve_sleep(bytes, global_elapsed_ms);
                if sleep > max_sleep {
                    max_sleep = sleep;
                }
            },
            None => {},
        }
        match &mut self.per_task {
            Some(state) => {
                let sleep = state.reserve_sleep(bytes, per_task_elapsed_ms);
                if sleep > max_sleep {
                    max_sleep = sleep;
                }
            },
            None => {},
        }
        max_sleep
    }
}

} // verus!
