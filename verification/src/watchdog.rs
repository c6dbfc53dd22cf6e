//! Hardware watchdog: an independent timer that the flight software must
//! feed; when it is starved for too long it expires and (optionally) resets.

use vstd::prelude::*;

verus! {

/// Watchdog state.
#[derive(Debug, Clone, Copy, PartialEq, Eq, Structural)]
pub enum WatchdogState {
    Armed,
    Running,
    Expired,
    Reset,
    Disabled,
}

/// Watchdog configuration.
#[derive(Debug, Clone, Copy, PartialEq, Eq, Structural)]
pub struct WatchdogConfig {
    pub timeout_ms: u32,
    pub max_missed_feeds: u32,
    pub auto_reset: bool,
    pub feed_interval_ms: u32,
}

impl Default for WatchdogConfig {
    fn default() -> (c: Self)
        ensures
            c == (WatchdogConfig { timeout_ms: 5000, max_missed_feeds: 3, auto_reset: true, feed_interval_ms: 2000 }),
    {
        WatchdogConfig { timeout_ms: 5000, max_missed_feeds: 3, auto_reset: true, feed_interval_ms: 2000 }
    }
}

/// Everything a watchdog holds, as plain values.
#[derive(Debug, Clone, Copy, PartialEq, Eq, Structural)]
pub struct WatchdogModel {
    pub config: WatchdogConfig,
    pub state: WatchdogState,
    pub last_feed_time_ms: u64,
    pub missed_feeds: u32,
    pub total_resets: u32,
    pub uptime_ms: u64,
}

/// Snapshot of the watchdog counters.
#[derive(Debug, Clone, Copy, PartialEq, Eq, Structural)]
pub struct WatchdogStats {
    pub state: WatchdogState,
    pub uptime_ms: u64,
    pub missed_feeds: u32,
    pub total_resets: u32,
    pub time_since_last_feed_ms: u64,
}

/// Simulated hardware watchdog.
pub struct HardwareWatchdog {
    config: WatchdogConfig,
    state: WatchdogState,
    last_feed_time_ms: u64,
    missed_feeds: u32,
    total_resets: u32,
    uptime_ms: u64,
}

/// The time since the last feed exceeds the configured timeout.
pub open spec fn starved(m: WatchdogModel, uptime: u64) -> bool {
    uptime - m.last_feed_time_ms > m.config.timeout_ms
}

/// No counter of the watchdog overflows during `tick(elapsed)`.
pub open spec fn tick_fits(m: WatchdogModel, elapsed: u64) -> bool {
    let up = m.uptime_ms + elapsed;
    &&& up <= u64::MAX
    &&& (m.state == WatchdogState::Running && up - m.last_feed_time_ms > m.config.timeout_ms) ==> {
        &&& m.missed_feeds < u32::MAX
        &&& (m.missed_feeds + 1 >= m.config.max_missed_feeds && m.config.auto_reset)
            ==> m.total_resets < u32::MAX
    }
}

/// The state after `tick(elapsed)` and whether a reset was triggered.
pub open spec fn tick_model(m: WatchdogModel, elapsed: u64) -> (WatchdogModel, bool) {
    let up = (m.uptime_ms + elapsed) as u64;
    let m1 = WatchdogModel { uptime_ms: up, ..m };
    if m.state != WatchdogState::Running {
        (m1, false)
    } else if up - m.last_feed_time_ms <= m.config.timeout_ms {
        (m1, false)
    } else {
        let missed = (m.missed_feeds + 1) as u32;
        if missed >= m.config.max_missed_feeds {
            if m.config.auto_reset {
                (WatchdogModel {
                    state: WatchdogState::Running,
                    total_resets: (m.total_resets + 1) as u32,
                    last_feed_time_ms: up,
                    missed_feeds: 0,
                    ..m1
                }, true)
            } else {
                (WatchdogModel { state: WatchdogState::Expired, missed_feeds: missed, ..m1 }, true)
            }
        } else {
            (WatchdogModel { missed_feeds: missed, ..m1 }, false)
        }
    }
}

/// A watchdog fed within its timeout never fires: the tick changes
/// nothing but the uptime.
pub proof fn lemma_fed_watchdog_never_fires(m: WatchdogModel, elapsed: u64)
    requires
        m.last_feed_time_ms <= m.uptime_ms,
        m.uptime_ms + elapsed <= u64::MAX,
        m.uptime_ms + elapsed - m.last_feed_time_ms <= m.config.timeout_ms,
    ensures
        !tick_model(m, elapsed).1,
        tick_model(m, elapsed).0 == (WatchdogModel { uptime_ms: (m.uptime_ms + elapsed) as u64, ..m }),
{
}

/// With automatic reset, a running watchdog keeps running whatever the
/// tick; when it fires it has been fed anew and its misses are cleared.
pub proof fn lemma_auto_reset_keeps_running(m: WatchdogModel, elapsed: u64)
    requires
        m.state == WatchdogState::Running,
        m.config.auto_reset,
    ensures
        tick_model(m, elapsed).0.state == WatchdogState::Running,
        tick_model(m, elapsed).1 ==> tick_model(m, elapsed).0.missed_feeds == 0
            && tick_model(m, elapsed).0.last_feed_time_ms == tick_model(m, elapsed).0.uptime_ms,
{
}

/// A watchdog fires only once the configured number of deadlines in a
/// row has been missed.
pub proof fn lemma_fires_only_after_missed_feeds(m: WatchdogModel, elapsed: u64)
    requires
        tick_model(m, elapsed).1,
    ensures
        m.state == WatchdogState::Running,
        m.missed_feeds + 1 >= m.config.max_missed_feeds,
{
}

impl View for HardwareWatchdog {
    type V = WatchdogModel;

    closed spec fn view(&self) -> WatchdogModel {
        WatchdogModel {
            config: self.config,
            state: self.state,
            last_feed_time_ms: self.last_feed_time_ms,
            missed_feeds: self.missed_feeds,
            total_resets: self.total_resets,
            uptime_ms: self.uptime_ms,
        }
    }
}

impl HardwareWatchdog {
    #[verifier::type_invariant]
    spec fn feed_not_in_future(self) -> bool {
        self.last_feed_time_ms <= self.uptime_ms
    }

    /// A new watchdog: armed, counters at zero.
    pub fn new(config: WatchdogConfig) -> (w: Self)
        ensures
            w@ == (WatchdogModel {
                config,
                state: WatchdogState::Armed,
                last_feed_time_ms: 0,
                missed_feeds: 0,
                total_resets: 0,
                uptime_ms: 0,
            }),
    {
        HardwareWatchdog {
            config,
            state: WatchdogState::Armed,
            last_feed_time_ms: 0,
            missed_feeds: 0,
            total_resets: 0,
            uptime_ms: 0,
        }
    }

    /// Starts the watchdog (after boot): running, counted as fed now.
    pub fn start(&mut self)
        ensures
            final(self)@ == (WatchdogModel {
                state: WatchdogState::Running,
                last_feed_time_ms: old(self)@.uptime_ms,
                ..old(self)@
            }),
    {
        proof {
            use_type_invariant(&*self);
        }
        self.state = WatchdogState::Running;
        self.last_feed_time_ms = self.uptime_ms;
    }

    /// Feeds the watchdog (heartbeat); only a running watchdog takes it.
    pub fn feed(&mut self)
        ensures
            final(self)@ == (if old(self)@.state == WatchdogState::Running {
                WatchdogModel { last_feed_time_ms: old(self)@.uptime_ms, missed_feeds: 0, ..old(self)@ }
            } else {
                old(self)@
            }),
    {
        proof {
            use_type_invariant(&*self);
        }
        if self.state == WatchdogState::Running {
            self.last_feed_time_ms = self.uptime_ms;
            self.missed_feeds = 0;
        }
    }

    /// Advances time by `elapsed_ms`; returns true when the watchdog fired.
    pub fn tick(&mut self, elapsed_ms: u64) -> (fired: bool)
        requires
            tick_fits(old(self)@, elapsed_ms),
        ensures
            (final(self)@, fired) == tick_model(old(self)@, elapsed_ms),
    {
        proof {
            use_type_invariant(&*self);
        }
        self.uptime_ms = self.uptime_ms + elapsed_ms;

        if self.state != WatchdogState::Running {
            return false;
        }

        let time_since_feed = self.uptime_ms - self.last_feed_time_ms;
        if time_since_feed > self.config.timeout_ms as u64 {
            self.missed_feeds = self.missed_feeds + 1;

            if self.missed_feeds >= self.config.max_missed_feeds {
                self.state = WatchdogState::Expired;
                if self.config.auto_reset {
                    self.state = WatchdogState::Reset;
                    self.total_resets = self.total_resets + 1;
                    self.last_feed_time_ms = self.uptime_ms;
                    self.missed_feeds = 0;
                    self.state = WatchdogState::Running;
                }
                return true;
            }
        }
        false
    }

    /// Disables the watchdog.
    pub fn disable(&mut self)
        ensures
            final(self)@ == (WatchdogModel { state: WatchdogState::Disabled, ..old(self)@ }),
    {
        proof {
            use_type_invariant(&*self);
        }
        self.state = WatchdogState::Disabled;
    }

    /// The current state.
    pub fn get_state(&self) -> (s: &WatchdogState)
        ensures
            *s == self@.state,
    {
        &self.state
    }

    /// The current counters.
    pub fn get_stats(&self) -> (st: WatchdogStats)
        ensures
            st == (WatchdogStats {
                state: self@.state,
                uptime_ms: self@.uptime_ms,
                missed_feeds: self@.missed_feeds,
                total_resets: self@.total_resets,
                time_since_last_feed_ms: (self@.uptime_ms - self@.last_feed_time_ms) as u64,
            }),
    {
        proof {
            use_type_invariant(self);
        }
        WatchdogStats {
            state: self.state,
            uptime_ms: self.uptime_ms,
            missed_feeds: self.missed_feeds,
            total_resets: self.total_resets,
            time_since_last_feed_ms: self.uptime_ms - self.last_feed_time_ms,
        }
    }
}

} // verus!
