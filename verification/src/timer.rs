use vstd::prelude::*;
use std::time::{Duration, Instant};

verus! {

#[verifier::external_type_specification]
#[verifier::external_body]
pub struct ExInstant(std::time::Instant);

/// Orders sent to the clock of the game.
#[derive(Clone, Copy, Debug, PartialEq, Eq, Structural)]
pub enum TimerStatus {
    NotStart,
    Start,
    Pause,
    Resume,
    Stop,
}

/// Measures the time played, in whole seconds, less the pauses.
///
/// Instants are held as nanoseconds since `origin`, the instant the clock
/// was made. The functions that read the clock act at the current
/// reading, which is never earlier than `latest`, the instant of the last
/// order or check.
pub struct Timer {
    /// The instant that the other instants are counted from.
    pub origin: Instant,
    /// When the clock was started, in nanoseconds since `origin`.
    pub start_time: u128,
    /// Seconds spent in pauses since the start.
    pub pause_duration: u64,
    /// When the clock was last paused, in nanoseconds since `origin`.
    pub pause_time: u128,
    /// When the time shown was last brought up to date, in nanoseconds since
    /// `origin`.
    pub last: u128,
    /// Whether the clock runs.
    pub is_running: bool,
    /// The instant of the last order or check that the clock carried out, in
    /// nanoseconds since `origin`; a later reading of the clock is never
    /// taken as earlier than it.
    pub latest: u128,
}

/// The current instant: `std::time::Instant::now`. Nothing is stated of the
/// value, which is read from the system clock.
#[verifier::external_body]
fn instant_now() -> Instant {
    Instant::now()
}

/// The time gone by since `t`: `std::time::Instant::elapsed`. Nothing is
/// stated of the value, which depends on the system clock.
#[verifier::external_body]
fn elapsed_since(t: &Instant) -> Duration {
    t.elapsed()
}

/// The whole nanoseconds of a duration: `std::time::Duration::as_nanos`.
/// Nothing is stated of the value, since a `Duration` shows nothing of
/// itself to the verifier.
#[verifier::external_body]
fn nanos_of(d: &Duration) -> u128 {
    d.as_nanos()
}

/// Nanoseconds in a second.
pub const NANOS_PER_SEC: u128 = 1_000_000_000;

/// Seconds between two updates of the time shown.
pub const UPDATE_SECS: u64 = 1;

/// The whole seconds from `earlier` to `later`, both in nanoseconds, as
/// `Duration::as_secs` gives them of `duration_since`: zero when `later`
/// comes first, and never more than a `u64` holds.
pub open spec fn secs_between(later: u128, earlier: u128) -> u64 {
    if later >= earlier {
        let s = (later - earlier) / (NANOS_PER_SEC as int);
        if s <= u64::MAX {
            s as u64
        } else {
            u64::MAX
        }
    } else {
        0
    }
}

/// The seconds played out of `total` seconds since the start, of which
/// `paused` were spent in pauses; never below zero.
pub open spec fn net_secs(total: u64, paused: u64) -> u64 {
    if total >= paused {
        (total - paused) as u64
    } else {
        0
    }
}

/// `a + b`, or the largest `u64` where the sum does not fit.
pub open spec fn sat_add(a: u64, b: u64) -> u64 {
    if a + b <= u64::MAX {
        (a + b) as u64
    } else {
        u64::MAX
    }
}

impl Timer {
    /// The clock started at `now`, with no pause counted.
    pub open spec fn started_at(self, now: u128) -> Timer {
        Timer { start_time: now, pause_duration: 0, is_running: true, latest: now, ..self }
    }

    /// The clock paused at `now`.
    pub open spec fn paused_at(self, now: u128) -> Timer {
        Timer { pause_time: now, is_running: false, latest: now, ..self }
    }

    /// The clock taken up again at `now`: the whole seconds since the pause
    /// are counted as paused.
    pub open spec fn resumed_at(self, now: u128) -> Timer {
        Timer {
            pause_duration: sat_add(self.pause_duration, secs_between(now, self.pause_time)),
            is_running: true,
            latest: now,
            ..self
        }
    }

    /// The clock stopped and set back at `now`.
    pub open spec fn stopped_at(self, now: u128) -> Timer {
        Timer {
            is_running: false,
            pause_duration: 0,
            start_time: now,
            pause_time: now,
            last: now,
            latest: now,
            ..self
        }
    }

    /// The time shown is due for an update at `now`: the clock runs and a
    /// full update interval has gone by since the last update.
    pub open spec fn due_at(self, now: u128) -> bool {
        self.is_running && secs_between(now, self.last) >= UPDATE_SECS
    }

    /// The clock after the check for an update at `now`: when one is due,
    /// the last update moves one interval later (up to the largest value a
    /// `u128` holds); either way the check is recorded as the latest.
    pub open spec fn ticked_at(self, now: u128) -> Timer {
        if self.due_at(now) {
            Timer {
                last: if self.last + NANOS_PER_SEC <= u128::MAX {
                    (self.last + NANOS_PER_SEC) as u128
                } else {
                    u128::MAX
                },
                latest: now,
                ..self
            }
        } else {
            Timer { latest: now, ..self }
        }
    }

    /// The clock after order `order` at `now`, and whether the time shown is
    /// then due for an update (never after a pause).
    pub open spec fn stepped_at(self, order: TimerStatus, now: u128) -> (Timer, bool) {
        let t = match order {
            TimerStatus::Pause => self.paused_at(now),
            TimerStatus::Start => self.started_at(now),
            TimerStatus::Resume => self.resumed_at(now),
            TimerStatus::Stop => self.stopped_at(now),
            TimerStatus::NotStart => self,
        };
        if order == TimerStatus::Pause {
            (t, false)
        } else {
            (t.ticked_at(now), t.due_at(now))
        }
    }

    /// The whole seconds played at `now`: while the clock runs, since the
    /// start; otherwise from the start to the pause; less the seconds of
    /// pause.
    pub open spec fn elapsed_at(self, now: u128) -> u64 {
        if self.is_running {
            net_secs(secs_between(now, self.start_time), self.pause_duration)
        } else {
            net_secs(secs_between(self.pause_time, self.start_time), self.pause_duration)
        }
    }

    /// The current instant, in nanoseconds since `origin`. The clock never
    /// goes back, so a reading is never earlier than `latest`; it is taken as
    /// `latest` should it be.
    fn now(&self) -> (n: u128)
        ensures
            n >= self.latest,
    {
        let d = elapsed_since(&self.origin);
        let r = nanos_of(&d);
        if r < self.latest {
            self.latest
        } else {
            r
        }
    }

    /// A clock that does not run, with no pause counted, made now: every
    /// instant is the instant it was made.
    pub fn new() -> (t: Timer)
        ensures
            !t.is_running,
            t.pause_duration == 0,
            t.start_time == 0,
            t.pause_time == 0,
            t.last == 0,
            t.latest == 0,
    {
        Timer {
            origin: instant_now(),
            start_time: 0,
            pause_duration: 0,
            pause_time: 0,
            last: 0,
            is_running: false,
            latest: 0,
        }
    }

    /// Starts the clock at `now`: see `started_at`.
    pub fn start_at(&mut self, now: u128)
        ensures
            *final(self) == old(self).started_at(now),
    {
        self.start_time = now;
        self.pause_duration = 0;
        self.is_running = true;
        self.latest = now;
    }

    /// Starts the clock from now, with no pause counted.
    pub fn start(&mut self)
        ensures
            exists|now: u128| now >= old(self).latest && *final(self) == old(self).started_at(now),
    {
        let now = self.now();
        self.start_at(now);
    }

    /// Pauses the clock at `now`: see `paused_at`.
    pub fn pause_at(&mut self, now: u128)
        ensures
            *final(self) == old(self).paused_at(now),
    {
        self.pause_time = now;
        self.is_running = false;
        self.latest = now;
    }

    /// Stops the clock for a pause that begins now.
    pub fn pause(&mut self)
        ensures
            exists|now: u128| now >= old(self).latest && *final(self) == old(self).paused_at(now),
    {
        let now = self.now();
        self.pause_at(now);
    }

    /// Counts `secs` more seconds of pause, up to the largest count a `u64`
    /// holds.
    pub fn add_pause(&mut self, secs: u64)
        ensures
            *final(self) == (Timer { pause_duration: sat_add(old(self).pause_duration, secs), ..*old(self) }),
    {
        if secs <= u64::MAX - self.pause_duration {
            self.pause_duration = self.pause_duration + secs;
        } else {
            self.pause_duration = u64::MAX;
        }
    }

    /// The whole seconds from `earlier` to `later`: see `secs_between`.
    pub fn secs_from(later: u128, earlier: u128) -> (s: u64)
        ensures
            s == secs_between(later, earlier),
    {
        if later >= earlier {
            let q = (later - earlier) / NANOS_PER_SEC;
            if q <= u64::MAX as u128 {
                q as u64
            } else {
                u64::MAX
            }
        } else {
            0
        }
    }

    /// Takes the clock up again at `now`: see `resumed_at`.
    pub fn resume_at(&mut self, now: u128)
        ensures
            *final(self) == old(self).resumed_at(now),
    {
        let secs = Timer::secs_from(now, self.pause_time);
        self.add_pause(secs);
        self.is_running = true;
        self.latest = now;
    }

    /// Runs the clock again and counts the whole seconds since the pause
    /// began as paused, up to the largest count a `u64` holds.
    pub fn resume(&mut self)
        ensures
            exists|now: u128| now >= old(self).latest && *final(self) == old(self).resumed_at(now),
    {
        let now = self.now();
        self.resume_at(now);
    }

    /// Stops and sets back the clock at `now`: see `stopped_at`.
    pub fn stop_at(&mut self, now: u128)
        ensures
            *final(self) == old(self).stopped_at(now),
    {
        self.is_running = false;
        self.pause_duration = 0;
        self.start_time = now;
        self.pause_time = now;
        self.last = now;
        self.latest = now;
    }

    /// Stops the clock and sets it back: no pause counted, every instant
    /// taken now.
    pub fn stop(&mut self)
        ensures
            exists|now: u128| now >= old(self).latest && *final(self) == old(self).stopped_at(now),
    {
        let now = self.now();
        self.stop_at(now);
    }

    /// The seconds played out of `total` seconds since the start: see
    /// `net_secs`.
    pub fn played_of(&self, total: u64) -> (secs: u64)
        ensures
            secs == net_secs(total, self.pause_duration),
    {
        if total >= self.pause_duration {
            total - self.pause_duration
        } else {
            0
        }
    }

    /// The whole seconds played at `now`: see `elapsed_at`.
    pub fn elapsed_at_time(&self, now: u128) -> (secs: u64)
        ensures
            secs == self.elapsed_at(now),
    {
        if self.is_running {
            self.played_of(Timer::secs_from(now, self.start_time))
        } else {
            self.played_of(Timer::secs_from(self.pause_time, self.start_time))
        }
    }

    /// The whole seconds played: while the clock runs, since the start;
    /// otherwise from the start to the pause, which reads no clock; less the
    /// seconds of pause.
    pub fn get_elapsed(&self) -> (secs: u64)
        ensures
            !self.is_running ==> secs == self.elapsed_at(0),
            exists|now: u128| now >= self.latest && secs == self.elapsed_at(now),
    {
        if self.is_running {
            let now = self.now();
            self.elapsed_at_time(now)
        } else {
            self.elapsed_at_time(self.latest)
        }
    }

    /// Checks at `now` whether the time shown is due for an update: see
    /// `due_at` and `ticked_at`.
    pub fn tick_at(&mut self, now: u128) -> (show: bool)
        ensures
            show == old(self).due_at(now),
            *final(self) == old(self).ticked_at(now),
    {
        let due = Timer::secs_from(now, self.last) >= UPDATE_SECS && self.is_running;
        self.latest = now;
        if due {
            if self.last <= u128::MAX - NANOS_PER_SEC {
                self.last = self.last + NANOS_PER_SEC;
            } else {
                self.last = u128::MAX;
            }
            true
        } else {
            false
        }
    }

    /// Whether the time shown is due for an update now (see `tick_at`).
    pub fn tick(&mut self) -> (show: bool)
        ensures
            exists|now: u128|
                now >= old(self).latest && show == old(self).due_at(now) && *final(self)
                    == old(self).ticked_at(now),
    {
        let now = self.now();
        self.tick_at(now)
    }

    /// One step of the clock at `now`: see `stepped_at`.
    pub fn step_at(&mut self, order: TimerStatus, now: u128) -> (show: bool)
        ensures
            (*final(self), show) == old(self).stepped_at(order, now),
    {
        match order {
            TimerStatus::Pause => {
                self.pause_at(now);
                return false;
            },
            TimerStatus::Start => self.start_at(now),
            TimerStatus::Resume => self.resume_at(now),
            TimerStatus::Stop => self.stop_at(now),
            TimerStatus::NotStart => {},
        }
        self.tick_at(now)
    }

    /// One step of the clock: carries out `order` (nothing for `NotStart`)
    /// at the current instant and, unless the order was to pause, tells
    /// whether the time shown is due for an update then.
    pub fn step(&mut self, order: TimerStatus) -> (show: bool)
        ensures
            exists|now: u128| now >= old(self).latest && (*final(self), show) == old(self).stepped_at(order, now),
    {
        let now = self.now();
        self.step_at(order, now)
    }
}

impl Default for Timer {
    fn default() -> (t: Timer)
        ensures
            !t.is_running,
            t.pause_duration == 0,
            t.start_time == 0,
            t.pause_time == 0,
            t.last == 0,
            t.latest == 0,
    {
        Timer::new()
    }
}

} // verus!
