//! Timing of graceful shutdown: how long an event loop may wait in `poll`.
use std::time::{Duration, Instant};
use vstd::prelude::*;

use crate::clock::{duration_millis, instant_now, millis_of, saturating_since, since_of};

verus! {

/// The longest a worker waits in `poll` before looking at the shutdown flag
/// again, in milliseconds.
pub const POLL_CAP_MS: u128 = 1000;

/// The handles of a graceful-shutdown coordinator: the self-pipe a signal
/// wakes workers through, and the installation it belongs to.
pub struct Shutdown {
    wake_read_fd: i32,
    wake_write_fd: i32,
    generation: u64,
}

/// A wait in milliseconds clamped to `1..=1000`.
pub open spec fn clamp_wait(millis: nat) -> int {
    if millis < 1 {
        1
    } else if millis > 1000 {
        1000
    } else {
        millis as int
    }
}

/// The wait before the next poll at time `now`: the milliseconds left until
/// `deadline`, or those of `fallback` without one, clamped to 1..=1000.
pub open spec fn poll_wait(deadline: Option<Instant>, now: Instant, fallback: Duration) -> int {
    match deadline {
        Some(d) => clamp_wait(millis_of(since_of(d, now)) as nat),
        None => clamp_wait(millis_of(fallback) as nat),
    }
}

impl Shutdown {
    /// A coordinator over an installed self-pipe.
    pub fn from_parts(wake_read_fd: i32, wake_write_fd: i32, generation: u64) -> (r: Self)
        ensures
            r.wake_fd_spec() == wake_read_fd,
            r.write_fd_spec() == wake_write_fd,
            r.generation_spec() == generation,
    {
        Shutdown { wake_read_fd, wake_write_fd, generation }
    }

    pub closed spec fn wake_fd_spec(&self) -> i32 {
        self.wake_read_fd
    }

    pub closed spec fn write_fd_spec(&self) -> i32 {
        self.wake_write_fd
    }

    pub closed spec fn generation_spec(&self) -> u64 {
        self.generation
    }

    /// File descriptor to include in the worker poll set; a shutdown
    /// wake-up arrives as readable data here.
    pub fn wake_fd(&self) -> (r: i32)
        ensures
            r == self.wake_fd_spec(),
    {
        self.wake_read_fd
    }

    /// The write end of the self-pipe.
    pub fn write_fd(&self) -> (r: i32)
        ensures
            r == self.write_fd_spec(),
    {
        self.wake_write_fd
    }

    /// The installation this coordinator belongs to.
    pub fn generation(&self) -> (r: u64)
        ensures
            r == self.generation_spec(),
    {
        self.generation
    }

    /// A wait of `millis` milliseconds clamped to at least 1 and at most
    /// 1000, as `poll` takes it.
    pub fn clamp_timeout(millis: u128) -> (r: i32)
        ensures
            r == clamp_wait(millis as nat),
    {
        if millis < 1 {
            1
        } else if millis > POLL_CAP_MS {
            1000
        } else {
            millis as i32
        }
    }

    /// The wait before the next poll at time `now`: the time left until the
    /// drain deadline passes, or `fallback` when no deadline is set;
    /// clamped to at least 1 ms (so an expired deadline still yields a
    /// positive timeout) and at most one second (so the triggered flag is
    /// polled regularly).
    pub fn timeout_at(deadline: Option<Instant>, now: Instant, fallback: Duration) -> (r: i32)
        ensures
            r == poll_wait(deadline, now, fallback),
    {
        let millis = match deadline {
            Some(d) => {
                let left = saturating_since(d, now);
                duration_millis(&left)
            },
            None => duration_millis(&fallback),
        };
        Self::clamp_timeout(millis)
    }

    /// The wait before the next poll, at the current time: see
    /// [`Shutdown::timeout_at`].
    pub fn poll_timeout(deadline: Option<Instant>, fallback: Duration) -> (r: i32)
        ensures
            1 <= r <= 1000,
            exists|now: Instant| r == poll_wait(deadline, now, fallback),
            deadline is None ==> r == clamp_wait(millis_of(fallback) as nat),
    {
        let now = instant_now();
        Self::timeout_at(deadline, now, fallback)
    }
}

} // verus!
