//! Priority classes of DTN bundles and prioritised bundles.

use vstd::prelude::*;
use crate::clock::{now_millis, in_clock_range, div_trunc, whole_seconds};

verus! {

/// Bundle identifier.
#[derive(Debug, PartialEq, Eq, Hash, PartialOrd, Ord)]
pub struct BundleId(pub String);

impl Clone for BundleId {
    fn clone(&self) -> (r: Self)
        ensures
            r == *self,
    {
        BundleId(self.0.clone())
    }
}

/// Where a bundle goes.
#[derive(Debug, PartialEq, Eq)]
pub enum BundleDestination {
    /// A ground station on Earth.
    EarthStation(String),
    /// A relay (orbiter).
    Relay(String),
}

impl Clone for BundleDestination {
    fn clone(&self) -> (r: Self)
        ensures
            r == *self,
    {
        match self {
            BundleDestination::EarthStation(s) => BundleDestination::EarthStation(s.clone()),
            BundleDestination::Relay(s) => BundleDestination::Relay(s.clone()),
        }
    }
}

/// Priority levels, from the lowest (0) to the most critical (7).
#[derive(Debug, Clone, Copy, PartialEq, Eq, PartialOrd, Ord, Hash, Structural)]
pub enum BundlePriority {
    /// Maintenance data, deferred logs.
    Maintenance,
    /// Non-critical bulk science.
    ScienceBulk,
    /// Standard science.
    ScienceNormal,
    /// Routine telemetry.
    Telemetry,
    /// High-priority science.
    ScienceHigh,
    /// Mission commands.
    Command,
    /// Emergency data.
    Emergency,
    /// Safety-critical (crew life, survival).
    SafetyCritical,
}

impl BundlePriority {
    /// The priority's level, 0 to 7; the derived order follows it.
    pub open spec fn level(self) -> int {
        match self {
            BundlePriority::Maintenance => 0,
            BundlePriority::ScienceBulk => 1,
            BundlePriority::ScienceNormal => 2,
            BundlePriority::Telemetry => 3,
            BundlePriority::ScienceHigh => 4,
            BundlePriority::Command => 5,
            BundlePriority::Emergency => 6,
            BundlePriority::SafetyCritical => 7,
        }
    }

    /// The largest acceptable delay for this priority, in seconds.
    pub open spec fn spec_max_delay_seconds(self) -> u32 {
        match self {
            BundlePriority::SafetyCritical => 30,
            BundlePriority::Emergency => 120,
            BundlePriority::Command => 300,
            BundlePriority::ScienceHigh => 3600,
            BundlePriority::Telemetry => 7200,
            BundlePriority::ScienceNormal => 43200,
            BundlePriority::ScienceBulk => 86400,
            BundlePriority::Maintenance => 259200,
        }
    }

    /// The largest acceptable delay for this priority, in seconds.
    pub fn max_delay_seconds(&self) -> (d: u32)
        ensures
            d == self.spec_max_delay_seconds(),
    {
        match self {
            BundlePriority::SafetyCritical => 30,
            BundlePriority::Emergency => 120,
            BundlePriority::Command => 300,
            BundlePriority::ScienceHigh => 3600,
            BundlePriority::Telemetry => 7200,
            BundlePriority::ScienceNormal => 43200,
            BundlePriority::ScienceBulk => 86400,
            BundlePriority::Maintenance => 259200,
        }
    }

    /// The least bandwidth this priority needs, in bits per second:
    /// 2000 for safety-critical, 1000 for emergencies, 500 for commands,
    /// 100 for the rest.
    pub fn min_bandwidth_bps(&self) -> (b: u32)
        ensures
            b == match *self {
                BundlePriority::SafetyCritical => 2000u32,
                BundlePriority::Emergency => 1000u32,
                BundlePriority::Command => 500u32,
                _ => 100u32,
            },
    {
        match self {
            BundlePriority::SafetyCritical => 2000,
            BundlePriority::Emergency => 1000,
            BundlePriority::Command => 500,
            _ => 100,
        }
    }

    /// The priority's level, 0 to 7.
    pub fn rank(&self) -> (r: u8)
        ensures
            r == self.level(),
    {
        match self {
            BundlePriority::Maintenance => 0,
            BundlePriority::ScienceBulk => 1,
            BundlePriority::ScienceNormal => 2,
            BundlePriority::Telemetry => 3,
            BundlePriority::ScienceHigh => 4,
            BundlePriority::Command => 5,
            BundlePriority::Emergency => 6,
            BundlePriority::SafetyCritical => 7,
        }
    }
}

/// A higher priority always tolerates a strictly shorter delay.
pub proof fn lemma_higher_priority_shorter_delay(a: BundlePriority, b: BundlePriority)
    requires
        a.level() < b.level(),
    ensures
        b.spec_max_delay_seconds() < a.spec_max_delay_seconds(),
{
}

/// A prioritised DTN bundle; times are Unix milliseconds.
#[derive(Debug, Clone)]
pub struct PriorityBundle {
    pub id: BundleId,
    pub priority: BundlePriority,
    pub source: String,
    pub destination: BundleDestination,
    pub payload: Vec<u8>,
    pub payload_size: u64,
    pub created_at: i64,
    pub expires_at: i64,
    /// Time-to-live in seconds.
    pub ttl: u32,
}

impl PriorityBundle {
    /// The bundle built at time `now`.
    pub open spec fn spec_new_at(
        id: BundleId,
        priority: BundlePriority,
        source: String,
        destination: BundleDestination,
        payload: Vec<u8>,
        ttl_seconds: u32,
        now: i64,
    ) -> PriorityBundle {
        PriorityBundle {
            id,
            priority,
            source,
            destination,
            payload,
            payload_size: payload@.len() as u64,
            created_at: now,
            expires_at: (now + ttl_seconds * 1000) as i64,
            ttl: ttl_seconds,
        }
    }

    /// A bundle created at `now` that lives `ttl_seconds`.
    pub fn new_at(
        id: BundleId,
        priority: BundlePriority,
        source: String,
        destination: BundleDestination,
        payload: Vec<u8>,
        ttl_seconds: u32,
        now: i64,
    ) -> (b: Self)
        requires
            in_clock_range(now),
        ensures
            b == Self::spec_new_at(id, priority, source, destination, payload, ttl_seconds, now),
    {
        let payload_size = payload.len() as u64;
        let expires_at = now + (ttl_seconds as i64) * 1000;
        PriorityBundle {
            id,
            priority,
            source,
            destination,
            payload,
            payload_size,
            created_at: now,
            expires_at,
            ttl: ttl_seconds,
        }
    }

    /// Transmission time of the payload at `bandwidth_bps` bits per
    /// second, in milliseconds rounded down (payload bits × 1000 / rate).
    pub fn estimated_transmission_time_ms(&self, bandwidth_bps: u64) -> (ms: u128)
        requires
            bandwidth_bps > 0,
        ensures
            ms == self.payload_size * 8 * 1000 / (bandwidth_bps as int),
    {
        (self.payload_size as u128) * 8000 / (bandwidth_bps as u128)
    }

    /// A bundle created now that lives `ttl_seconds`.
    pub fn new(
        id: BundleId,
        priority: BundlePriority,
        source: String,
        destination: BundleDestination,
        payload: Vec<u8>,
        ttl_seconds: u32,
    ) -> (b: Self)
        ensures
            in_clock_range(b.created_at),
            b == Self::spec_new_at(id, priority, source, destination, payload, ttl_seconds, b.created_at),
    {
        let now = now_millis();
        Self::new_at(id, priority, source, destination, payload, ttl_seconds, now)
    }

    /// Whether the bundle has expired at time `now`.
    pub fn is_expired_at(&self, now: i64) -> (r: bool)
        ensures
            r == (now > self.expires_at),
    {
        now > self.expires_at
    }

    /// Whether the bundle has expired now.
    pub fn is_expired(&self) -> (r: bool)
        ensures
            exists|now: i64| in_clock_range(now) && r == (now > self.expires_at),
    {
        let now = now_millis();
        self.is_expired_at(now)
    }

    /// Whole seconds from `now` to the expiry, truncated toward zero.
    pub open spec fn spec_remaining_ttl_at(&self, now: i64) -> int {
        div_trunc(self.expires_at - now, 1000)
    }

    /// Whole seconds left at time `now` before expiry (negative once past).
    pub fn remaining_ttl_seconds_at(&self, now: i64) -> (s: i64)
        requires
            in_clock_range(now),
        ensures
            s == self.spec_remaining_ttl_at(now),
    {
        let span: i128 = self.expires_at as i128 - now as i128;
        let secs = whole_seconds(span);
        secs as i64
    }

    /// Whole seconds left now before expiry.
    pub fn remaining_ttl_seconds(&self) -> (s: i64)
        ensures
            exists|now: i64| in_clock_range(now) && s == self.spec_remaining_ttl_at(now),
    {
        let now = now_millis();
        self.remaining_ttl_seconds_at(now)
    }

    /// Whether, at time `now`, less than half the priority's delay budget
    /// remains.
    pub fn is_urgent_at(&self, now: i64) -> (r: bool)
        requires
            in_clock_range(now),
        ensures
            r == (self.spec_remaining_ttl_at(now) < self.priority.spec_max_delay_seconds() as int / 2),
    {
        let remaining = self.remaining_ttl_seconds_at(now);
        remaining < (self.priority.max_delay_seconds() as i64) / 2
    }

    /// Whether less than half the priority's delay budget remains now.
    pub fn is_urgent(&self) -> (r: bool)
        ensures
            exists|now: i64|
                in_clock_range(now) && r == (self.spec_remaining_ttl_at(now)
                    < self.priority.spec_max_delay_seconds() as int / 2),
    {
        let now = now_millis();
        self.is_urgent_at(now)
    }
}

} // verus!
