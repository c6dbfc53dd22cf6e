//! Health of the monitored components: statuses, metrics, anomalies, the
//! safe-mode level, and the manager that evaluates metric updates.
//! Metric values are integers in thousandths of their unit; times are Unix
//! milliseconds.

use vstd::prelude::*;
use crate::clock::{now_millis, in_clock_range, floor_seconds};
use crate::text::{spec_signed_decimal, spec_decimal, digit_char, i64_to_decimal, u64_to_decimal, string_of, concat2};

verus! {

/// Identifier of a monitored component.
#[derive(Debug, PartialEq, Eq, Hash)]
pub struct ComponentId(pub String);

impl Clone for ComponentId {
    fn clone(&self) -> (r: Self)
        ensures
            r == *self,
    {
        ComponentId(self.0.clone())
    }
}

impl ComponentId {
    /// The identifier's text, as `Display` writes it.
    pub fn as_text(&self) -> (s: String)
        ensures
            s@ == self.0@,
    {
        self.0.clone()
    }
}

/// Kind of a Mars component.
#[derive(Debug, Clone, Copy, PartialEq, Eq, Hash, Structural)]
pub enum ComponentType {
    Processor,
    Memory,
    Power,
    Communication,
    Thermal,
    Navigation,
    Camera,
    Spectrometer,
    Drill,
    WeatherStation,
    LifeSupport,
    AtmosphereControl,
    WaterRecycling,
    RadiationShield,
    Thruster,
    FuelTank,
    ReactionWheel,
}

/// Health of a component.
#[derive(Debug, Clone, Copy, PartialEq, Eq, Hash, Structural)]
pub enum HealthStatus {
    /// Nominal operation.
    Nominal,
    /// Slight degradation, closer monitoring.
    Degraded,
    /// Impaired operation, action required.
    Impaired,
    /// Failed, out of service.
    Failed,
    /// Being recovered.
    Recovering,
}

impl HealthStatus {
    /// The status's name, as `Debug` writes it.
    pub open spec fn spec_name(self) -> Seq<char> {
        match self {
            HealthStatus::Nominal => "Nominal"@,
            HealthStatus::Degraded => "Degraded"@,
            HealthStatus::Impaired => "Impaired"@,
            HealthStatus::Failed => "Failed"@,
            HealthStatus::Recovering => "Recovering"@,
        }
    }

    /// The status's name, as `Debug` writes it.
    pub fn name(&self) -> (s: String)
        ensures
            s@ == self.spec_name(),
    {
        match self {
            HealthStatus::Nominal => "Nominal".to_string(),
            HealthStatus::Degraded => "Degraded".to_string(),
            HealthStatus::Impaired => "Impaired".to_string(),
            HealthStatus::Failed => "Failed".to_string(),
            HealthStatus::Recovering => "Recovering".to_string(),
        }
    }
}

/// A health measurement, with its two thresholds (all in thousandths of
/// `unit`).
#[derive(Debug)]
pub struct HealthMetric {
    pub component_id: ComponentId,
    pub metric_name: String,
    pub value_milli: i64,
    pub unit: String,
    pub threshold_warning_milli: i64,
    pub threshold_critical_milli: i64,
    pub timestamp: i64,
}

impl Clone for HealthMetric {
    fn clone(&self) -> (r: Self)
        ensures
            r == *self,
    {
        HealthMetric {
            component_id: self.component_id.clone(),
            metric_name: self.metric_name.clone(),
            value_milli: self.value_milli,
            unit: self.unit.clone(),
            threshold_warning_milli: self.threshold_warning_milli,
            threshold_critical_milli: self.threshold_critical_milli,
            timestamp: self.timestamp,
        }
    }
}

/// The status a measurement shows: Nominal up to the warning threshold,
/// Degraded up to the critical one, Impaired beyond.
pub open spec fn spec_evaluate(m: HealthMetric) -> HealthStatus {
    if m.value_milli <= m.threshold_warning_milli {
        HealthStatus::Nominal
    } else if m.value_milli <= m.threshold_critical_milli {
        HealthStatus::Degraded
    } else {
        HealthStatus::Impaired
    }
}

impl HealthMetric {
    /// The status this measurement shows.
    pub fn evaluate(&self) -> (s: HealthStatus)
        ensures
            s == spec_evaluate(*self),
    {
        if self.value_milli <= self.threshold_warning_milli {
            HealthStatus::Nominal
        } else if self.value_milli <= self.threshold_critical_milli {
            HealthStatus::Degraded
        } else {
            HealthStatus::Impaired
        }
    }
}

/// Severity of an anomaly, in increasing order.
#[derive(Debug, Clone, Copy, PartialEq, Eq, PartialOrd, Ord, Hash, Structural)]
pub enum AnomalySeverity {
    Info,
    Warning,
    Critical,
    Emergency,
}

impl AnomalySeverity {
    /// The severity's rank, 0 (Info) to 3 (Emergency); the derived order
    /// follows it.
    pub open spec fn level(self) -> u8 {
        match self {
            AnomalySeverity::Info => 0,
            AnomalySeverity::Warning => 1,
            AnomalySeverity::Critical => 2,
            AnomalySeverity::Emergency => 3,
        }
    }

    /// The severity's rank, 0 (Info) to 3 (Emergency).
    pub fn rank(&self) -> (r: u8)
        ensures
            r == self.level(),
    {
        match self {
            AnomalySeverity::Info => 0,
            AnomalySeverity::Warning => 1,
            AnomalySeverity::Critical => 2,
            AnomalySeverity::Emergency => 3,
        }
    }
}

/// A detected anomaly.
#[derive(Debug)]
pub struct Anomaly {
    pub id: String,
    pub component: ComponentId,
    pub severity: AnomalySeverity,
    pub description: String,
    pub detected_at: i64,
    pub related_metrics: Vec<HealthMetric>,
    pub recommended_action: String,
}

impl Clone for Anomaly {
    fn clone(&self) -> (r: Self)
        ensures
            r.id@ == self.id@,
            r.component == self.component,
            r.severity == self.severity,
            r.description@ == self.description@,
            r.detected_at == self.detected_at,
            r.related_metrics@ == self.related_metrics@,
            r.recommended_action@ == self.recommended_action@,
    {
        let related_metrics = self.related_metrics.clone();
        proof {
            assert(related_metrics@ =~= self.related_metrics@);
        }
        Anomaly {
            id: self.id.clone(),
            component: self.component.clone(),
            severity: self.severity,
            description: self.description.clone(),
            detected_at: self.detected_at,
            related_metrics,
            recommended_action: self.recommended_action.clone(),
        }
    }
}

/// Safe-mode level.
#[derive(Debug, Clone, Copy, PartialEq, Eq, Structural)]
pub enum SafeModeLevel {
    /// Nominal mode.
    Nominal,
    /// Partial restrictions.
    Restricted,
    /// Minimum safe mode.
    SafeMinimum,
    /// Emergency shutdown.
    EmergencyShutdown,
}

/// Errors of the health manager.
#[derive(Debug)]
pub enum HealthError {
    ComponentNotFound(ComponentId),
    CriticalThresholdExceeded(String),
    RecoveryFailed(String),
    SafeModeActivated(String),
}

impl HealthError {
    /// The error's message.
    pub open spec fn spec_message(self) -> Seq<char> {
        match self {
            HealthError::ComponentNotFound(c) => "Composant non trouvé: "@ + c.0@,
            HealthError::CriticalThresholdExceeded(s) => "Seuil critique dépassé: "@ + s@,
            HealthError::RecoveryFailed(s) => "Recovery échouée: "@ + s@,
            HealthError::SafeModeActivated(s) => "Safe mode activé: "@ + s@,
        }
    }

    /// The error's message.
    pub fn message(&self) -> (s: String)
        ensures
            s@ == self.spec_message(),
    {
        match self {
            HealthError::ComponentNotFound(c) => concat2("Composant non trouvé: ", c.0.as_str()),
            HealthError::CriticalThresholdExceeded(s) => concat2("Seuil critique dépassé: ", s.as_str()),
            HealthError::RecoveryFailed(s) => concat2("Recovery échouée: ", s.as_str()),
            HealthError::SafeModeActivated(s) => concat2("Safe mode activé: ", s.as_str()),
        }
    }
}

/// Full health record of a component.
#[derive(Debug)]
pub struct ComponentHealth {
    pub id: ComponentId,
    pub component_type: ComponentType,
    pub status: HealthStatus,
    pub metrics: Vec<HealthMetric>,
    pub last_check: i64,
    pub uptime_seconds: u64,
    pub failure_count: u32,
    pub last_recovery: Option<i64>,
}

impl Clone for ComponentHealth {
    fn clone(&self) -> (r: Self)
        ensures
            r.id == self.id,
            r.component_type == self.component_type,
            r.status == self.status,
            r.metrics@ == self.metrics@,
            r.last_check == self.last_check,
            r.uptime_seconds == self.uptime_seconds,
            r.failure_count == self.failure_count,
            r.last_recovery == self.last_recovery,
    {
        let metrics = self.metrics.clone();
        proof {
            assert(metrics@ =~= self.metrics@);
        }
        ComponentHealth {
            id: self.id.clone(),
            component_type: self.component_type,
            status: self.status,
            metrics,
            last_check: self.last_check,
            uptime_seconds: self.uptime_seconds,
            failure_count: self.failure_count,
            last_recovery: self.last_recovery,
        }
    }
}

/// Health report of the whole system.
#[derive(Debug, Clone, Copy, PartialEq, Eq, Structural)]
pub struct SystemHealthReport {
    pub total_components: usize,
    pub nominal_count: usize,
    pub degraded_count: usize,
    pub impaired_count: usize,
    pub failed_count: usize,
    /// Share of nominal components, in hundredths of a percent (rounded
    /// down); 10000 when nothing is registered.
    pub health_basis_points: u32,
    pub active_anomalies: usize,
    pub safe_mode_level: SafeModeLevel,
}

/// Distributed health manager.
pub struct HealthManager {
    components: Vec<ComponentHealth>,
    anomaly_log: Vec<Anomaly>,
    safe_mode: SafeModeLevel,
    active_recoveries: Vec<String>,
}

/// No two components share an identifier.
pub open spec fn distinct_ids(cs: Seq<ComponentHealth>) -> bool {
    forall|i: int, j: int| 0 <= i < j < cs.len() ==> cs[i].id.0@ != cs[j].id.0@
}

/// Whether a component with this identifier is registered.
pub open spec fn has_component(cs: Seq<ComponentHealth>, id: Seq<char>) -> bool {
    exists|k: int| 0 <= k < cs.len() && cs[k].id.0@ == id
}

/// The metric history after recording `m`: the last hundred measurements.
pub open spec fn metrics_after(ms: Seq<HealthMetric>, m: HealthMetric) -> Seq<HealthMetric> {
    if ms.len() + 1 > 100 {
        ms.push(m).drop_first()
    } else {
        ms.push(m)
    }
}

/// A component record after the measurement `m` taken at `now`.
pub open spec fn updated_component(c0: ComponentHealth, c1: ComponentHealth, m: HealthMetric, now: i64) -> bool {
    let s = spec_evaluate(m);
    &&& c1.id == c0.id
    &&& c1.component_type == c0.component_type
    &&& c1.status == s
    &&& c1.metrics@ == metrics_after(c0.metrics@, m)
    &&& c1.last_check == now
    &&& c1.uptime_seconds == c0.uptime_seconds
    &&& c1.failure_count == (if s == HealthStatus::Impaired || s == HealthStatus::Failed {
        if c0.failure_count < u32::MAX { (c0.failure_count + 1) as u32 } else { u32::MAX }
    } else {
        c0.failure_count
    })
    &&& c1.last_recovery == c0.last_recovery
}

/// A quantity in thousandths, rounded to hundredths (halves away from
/// zero) and written with two decimals: 85000 is "85.00", -1234 is
/// "-1.23".
pub open spec fn hundredths_text(m: int) -> Seq<char> {
    let a = if m < 0 { -m } else { m };
    let c = (a + 5) / 10;
    (if m < 0 { seq!['-'] } else { Seq::<char>::empty() }) + spec_decimal((c / 100) as nat)
        + seq!['.', digit_char(((c % 100) / 10) as nat), digit_char((c % 10) as nat)]
}

/// Writes a quantity in thousandths with two decimals.
fn write_hundredths(m: i64) -> (s: String)
    ensures
        s@ == hundredths_text(m as int),
{
    let neg = m < 0;
    let a: u64 = if neg { (-(m as i128)) as u64 } else { m as u64 };
    let c: u64 = (a + 5) / 10;
    let digits = ['0', '1', '2', '3', '4', '5', '6', '7', '8', '9'];
    let tens = digits[((c % 100) / 10) as usize];
    let ones = digits[(c % 10) as usize];
    let cs: Vec<char> = vec!['.', tens, ones];
    let tail = string_of(cs.as_slice());
    let mut s = if neg { "-".to_string() } else { String::new() };
    s.append(u64_to_decimal(c / 100).as_str());
    s.append(tail.as_str());
    proof {
        reveal_strlit("-");
        assert(tens == digit_char(((c % 100) / 10) as nat));
        assert(ones == digit_char((c % 10) as nat));
        assert(tail@ =~= seq!['.', tens, ones]);
        assert(s@ =~= hundredths_text(m as int));
    }
    s
}

/// The anomaly recorded when a measurement crosses the critical
/// threshold.
pub open spec fn critical_anomaly(a: Anomaly, m: HealthMetric, s: HealthStatus, now: i64) -> bool {
    &&& a.id@ == "anomaly-"@ + m.component_id.0@ + "-"@ + spec_signed_decimal(now / 1000)
    &&& a.component == m.component_id
    &&& a.severity == (if s == HealthStatus::Failed { AnomalySeverity::Emergency } else { AnomalySeverity::Critical })
    &&& a.description@ == "Metric '"@ + m.metric_name@ + "' exceeded threshold: "@ + hundredths_text(m.value_milli as int)
        + " > "@ + hundredths_text(m.threshold_critical_milli as int) + " (critical)"@
    &&& a.detected_at == now
    &&& a.related_metrics@ == seq![m]
    &&& a.recommended_action@ == "Initiate recovery for "@ + m.component_id.0@
}

/// The anomaly recorded when a nominal component crosses the warning
/// threshold.
pub open spec fn warning_anomaly(a: Anomaly, m: HealthMetric, now: i64) -> bool {
    &&& a.id@ == "anomaly-degraded-"@ + m.component_id.0@ + "-"@ + spec_signed_decimal(now / 1000)
    &&& a.component == m.component_id
    &&& a.severity == AnomalySeverity::Warning
    &&& a.description@ == "Metric '"@ + m.metric_name@ + "' warning threshold: "@ + hundredths_text(m.value_milli as int)
        + " > "@ + hundredths_text(m.threshold_warning_milli as int)
    &&& a.detected_at == now
    &&& a.related_metrics@ == seq![m]
    &&& a.recommended_action@ == "Monitor "@ + m.component_id.0@ + " closely"@
}

/// The anomaly log after the measurement `m` moved a component from
/// status `old_s`.
pub open spec fn log_after(log0: Seq<Anomaly>, log1: Seq<Anomaly>, m: HealthMetric, old_s: HealthStatus, now: i64) -> bool {
    let s = spec_evaluate(m);
    if s == HealthStatus::Impaired || s == HealthStatus::Failed {
        log1.len() == log0.len() + 1 && log1.take(log0.len() as int) == log0
            && critical_anomaly(log1[log0.len() as int], m, s, now)
    } else if s == HealthStatus::Degraded && old_s == HealthStatus::Nominal {
        log1.len() == log0.len() + 1 && log1.take(log0.len() as int) == log0
            && warning_anomaly(log1[log0.len() as int], m, now)
    } else {
        log1 == log0
    }
}

/// The number of components with the given status.
pub open spec fn count_status(cs: Seq<ComponentHealth>, s: HealthStatus) -> nat
    decreases cs.len(),
{
    if cs.len() == 0 {
        0
    } else {
        count_status(cs.drop_last(), s) + (if cs.last().status == s { 1nat } else { 0nat })
    }
}

/// Whether an anomaly is still active: Warning or above.
pub open spec fn is_active(a: Anomaly) -> bool {
    a.severity.level() >= 1
}

/// The status a component takes when safe mode `level` is entered.
pub open spec fn status_in_safe_mode(s: HealthStatus, level: SafeModeLevel) -> HealthStatus {
    if s == HealthStatus::Nominal && (level == SafeModeLevel::SafeMinimum || level == SafeModeLevel::EmergencyShutdown) {
        HealthStatus::Degraded
    } else {
        s
    }
}

/// Two component records hold the same values.
pub open spec fn same_record(a: ComponentHealth, b: ComponentHealth) -> bool {
    &&& a.id == b.id
    &&& a.component_type == b.component_type
    &&& a.status == b.status
    &&& a.metrics@ == b.metrics@
    &&& a.last_check == b.last_check
    &&& a.uptime_seconds == b.uptime_seconds
    &&& a.failure_count == b.failure_count
    &&& a.last_recovery == b.last_recovery
}

/// Two anomalies hold the same values.
pub open spec fn same_anomaly(a: Anomaly, b: Anomaly) -> bool {
    &&& a.id@ == b.id@
    &&& a.component == b.component
    &&& a.severity == b.severity
    &&& a.description@ == b.description@
    &&& a.detected_at == b.detected_at
    &&& a.related_metrics@ == b.related_metrics@
    &&& a.recommended_action@ == b.recommended_action@
}

/// The active anomalies of a log, in order.
pub open spec fn active_of(log: Seq<Anomaly>) -> Seq<Anomaly>
    decreases log.len(),
{
    if log.len() == 0 {
        Seq::empty()
    } else if is_active(log.last()) {
        active_of(log.drop_last()).push(log.last())
    } else {
        active_of(log.drop_last())
    }
}

/// The anomalies of a log detected after `cutoff`, in order.
pub open spec fn recent_of(log: Seq<Anomaly>, cutoff: int) -> Seq<Anomaly>
    decreases log.len(),
{
    if log.len() == 0 {
        Seq::empty()
    } else if log.last().detected_at > cutoff {
        recent_of(log.drop_last(), cutoff).push(log.last())
    } else {
        recent_of(log.drop_last(), cutoff)
    }
}

/// The record `c1` is `c0` after entering safe mode `level`.
pub open spec fn safe_mode_record(c1: ComponentHealth, c0: ComponentHealth, level: SafeModeLevel) -> bool {
    same_record(c1, ComponentHealth { status: status_in_safe_mode(c0.status, level), ..c0 })
}

/// A freshly registered record: nominal, no measurement, checked at
/// `now`, counters at zero.
pub open spec fn fresh_component(c: ComponentHealth, id: ComponentId, t: ComponentType, now: i64) -> bool {
    &&& c.id == id
    &&& c.component_type == t
    &&& c.status == HealthStatus::Nominal
    &&& c.metrics@.len() == 0
    &&& c.last_check == now
    &&& c.uptime_seconds == 0
    &&& c.failure_count == 0
    &&& c.last_recovery is None
}

impl HealthManager {
    #[verifier::type_invariant]
    spec fn unique_components(self) -> bool {
        distinct_ids(self.components@)
    }

    /// The registered components.
    pub closed spec fn components(self) -> Seq<ComponentHealth> {
        self.components@
    }

    /// The anomaly log, oldest first.
    pub closed spec fn anomalies(self) -> Seq<Anomaly> {
        self.anomaly_log@
    }

    /// The current safe-mode level.
    pub closed spec fn safe_mode(self) -> SafeModeLevel {
        self.safe_mode
    }

    /// The components under recovery: none is ever entered, and no
    /// operation changes the list.
    pub closed spec fn recoveries(self) -> Seq<String> {
        self.active_recoveries@
    }

    /// A manager with no component, no anomaly, in nominal mode.
    pub fn new() -> (h: Self)
        ensures
            h.components().len() == 0,
            h.anomalies().len() == 0,
            h.safe_mode() == SafeModeLevel::Nominal,
            h.recoveries().len() == 0,
    {
        HealthManager {
            components: Vec::new(),
            anomaly_log: Vec::new(),
            safe_mode: SafeModeLevel::Nominal,
            active_recoveries: Vec::new(),
        }
    }

    /// Registers a component at time `now`: a nominal record with no
    /// measurement, which replaces any record with the same identifier.
    pub fn register_component_at(&mut self, id: ComponentId, component_type: ComponentType, now: i64)
        ensures
            final(self).recoveries() == old(self).recoveries(),
            final(self).anomalies() == old(self).anomalies(),
            final(self).safe_mode() == old(self).safe_mode(),
            has_component(old(self).components(), id.0@) ==> {
                &&& final(self).components().len() == old(self).components().len()
                &&& forall|k: int| 0 <= k < old(self).components().len() ==> if old(self).components()[k].id.0@ == id.0@ {
                    fresh_component(final(self).components()[k], id, component_type, now)
                } else {
                    final(self).components()[k] == old(self).components()[k]
                }
            },
            !has_component(old(self).components(), id.0@) ==> {
                &&& final(self).components().len() == old(self).components().len() + 1
                &&& final(self).components().take(old(self).components().len() as int) == old(self).components()
                &&& fresh_component(final(self).components().last(), id, component_type, now)
            },
    {
        proof {
            use_type_invariant(&*self);
        }
        let found = Self::find(&self.components, &id);
        let fresh = ComponentHealth {
            id,
            component_type,
            status: HealthStatus::Nominal,
            metrics: Vec::new(),
            last_check: now,
            uptime_seconds: 0,
            failure_count: 0,
            last_recovery: None,
        };
        let mut cs: Vec<ComponentHealth> = Vec::new();
        std::mem::swap(&mut cs, &mut self.components);
        let ghost before = cs@;
        match found {
            Some(k) => {
                cs.set(k, fresh);
                proof {
                    assert forall|i: int, j: int| 0 <= i < j < cs@.len() implies cs@[i].id.0@ != cs@[j].id.0@ by {
                        if i == k as int || j == k as int {
                            assert(before[k as int].id.0@ == cs@[k as int].id.0@);
                        }
                    }
                    assert forall|i: int| 0 <= i < before.len() && before[i].id.0@ == cs@[k as int].id.0@ implies i == k as int by {
                        if i != k as int {
                            assert(before[i].id.0@ == before[k as int].id.0@);
                        }
                    }
                }
            },
            None => {
                cs.push(fresh);
                proof {
                    assert(cs@.take(before.len() as int) =~= before);
                }
            },
        }
        self.components = cs;
    }

    /// Registers a component now.
    pub fn register_component(&mut self, id: ComponentId, component_type: ComponentType)
        ensures
            final(self).recoveries() == old(self).recoveries(),
            final(self).anomalies() == old(self).anomalies(),
            final(self).safe_mode() == old(self).safe_mode(),
            exists|now: i64| in_clock_range(now) && {
                &&& has_component(old(self).components(), id.0@) ==> {
                    &&& final(self).components().len() == old(self).components().len()
                    &&& forall|k: int| 0 <= k < old(self).components().len() ==> if old(self).components()[k].id.0@ == id.0@ {
                        fresh_component(final(self).components()[k], id, component_type, now)
                    } else {
                        final(self).components()[k] == old(self).components()[k]
                    }
                }
                &&& !has_component(old(self).components(), id.0@) ==> {
                    &&& final(self).components().len() == old(self).components().len() + 1
                    &&& final(self).components().take(old(self).components().len() as int) == old(self).components()
                    &&& fresh_component(final(self).components().last(), id, component_type, now)
                }
            },
    {
        let now = now_millis();
        self.register_component_at(id, component_type, now);
    }

    /// Records the measurement `metric` taken at `now` on its component:
    /// the last hundred measurements are kept, the status is re-evaluated,
    /// and an anomaly is logged when the critical threshold is crossed, or
    /// when a nominal component crosses the warning threshold.
    pub fn update_metric_at(&mut self, metric: HealthMetric, now: i64) -> (r: Result<(), HealthError>)
        ensures
            final(self).recoveries() == old(self).recoveries(),
            final(self).safe_mode() == old(self).safe_mode(),
            !has_component(old(self).components(), metric.component_id.0@) ==> {
                &&& r == Err::<(), HealthError>(HealthError::ComponentNotFound(metric.component_id))
                &&& final(self).components() == old(self).components()
                &&& final(self).anomalies() == old(self).anomalies()
            },
            has_component(old(self).components(), metric.component_id.0@) ==> {
                &&& r is Ok
                &&& final(self).components().len() == old(self).components().len()
                &&& forall|k: int| 0 <= k < old(self).components().len() ==> if old(self).components()[k].id.0@ == metric.component_id.0@ {
                    &&& updated_component(old(self).components()[k], final(self).components()[k], metric, now)
                    &&& log_after(old(self).anomalies(), final(self).anomalies(), metric, old(self).components()[k].status, now)
                } else {
                    final(self).components()[k] == old(self).components()[k]
                }
            },
    {
        proof {
            use_type_invariant(&*self);
        }
        let k = match Self::find(&self.components, &metric.component_id) {
            None => {
                return Err(HealthError::ComponentNotFound(metric.component_id));
            },
            Some(k) => k,
        };
        let ghost old_components = self.components@;
        let ghost old_log = self.anomaly_log@;
        let new_status = metric.evaluate();
        let old_status = self.components[k].status;
        let mut metrics = self.components[k].metrics.clone();
        proof {
            assert(metrics@ =~= old_components[k as int].metrics@);
        }
        metrics.push(metric.clone());
        if metrics.len() > 100 {
            metrics.remove(0);
        }
        proof {
            assert(metrics@ =~= metrics_after(old_components[k as int].metrics@, metric));
        }
        let impaired = new_status == HealthStatus::Impaired || new_status == HealthStatus::Failed;
        let old_failures = self.components[k].failure_count;
        let failure_count: u32 = if impaired { old_failures.saturating_add(1) } else { old_failures };
        let c = ComponentHealth {
            id: self.components[k].id.clone(),
            component_type: self.components[k].component_type,
            status: new_status,
            metrics,
            last_check: now,
            uptime_seconds: self.components[k].uptime_seconds,
            failure_count,
            last_recovery: self.components[k].last_recovery,
        };
        let mut cs: Vec<ComponentHealth> = Vec::new();
        std::mem::swap(&mut cs, &mut self.components);
        cs.set(k, c);
        proof {
            assert forall|i: int, j: int| 0 <= i < j < cs@.len() implies cs@[i].id.0@ != cs@[j].id.0@ by {
                if i == k as int || j == k as int {
                    assert(old_components[k as int].id.0@ == cs@[k as int].id.0@);
                }
            }
            assert forall|i: int| 0 <= i < old_components.len() && old_components[i].id.0@ == metric.component_id.0@ implies i == k as int by {
                if i != k as int {
                    assert(old_components[i].id.0@ == old_components[k as int].id.0@);
                }
            }
        }
        self.components = cs;
        let secs = i64_to_decimal(floor_seconds(now));
        let cid = metric.component_id.0.clone();
        if impaired {
            let mut id = concat2("anomaly-", cid.as_str());
            id.append("-");
            id.append(secs.as_str());
            let mut description = concat2("Metric '", metric.metric_name.as_str());
            description.append("' exceeded threshold: ");
            description.append(write_hundredths(metric.value_milli).as_str());
            description.append(" > ");
            description.append(write_hundredths(metric.threshold_critical_milli).as_str());
            description.append(" (critical)");
            let severity = if new_status == HealthStatus::Failed {
                AnomalySeverity::Emergency
            } else {
                AnomalySeverity::Critical
            };
            let a = Anomaly {
                id,
                component: metric.component_id.clone(),
                severity,
                description,
                detected_at: now,
                related_metrics: vec![metric],
                recommended_action: concat2("Initiate recovery for ", cid.as_str()),
            };
            self.log_push(a);
            proof {
                assert(self.anomaly_log@.take(old_log.len() as int) =~= old_log);
                let a = self.anomaly_log@[old_log.len() as int];
                assert(a.id@ == "anomaly-"@ + metric.component_id.0@ + "-"@ + spec_signed_decimal(now / 1000));
                assert(a.component == metric.component_id);
                assert(a.description@ == "Metric '"@ + metric.metric_name@ + "' exceeded threshold: "@ + hundredths_text(metric.value_milli as int)
        + " > "@ + hundredths_text(metric.threshold_critical_milli as int) + " (critical)"@);
                assert(a.related_metrics@ == seq![metric]);
                assert(a.recommended_action@ == "Initiate recovery for "@ + metric.component_id.0@);
                assert(critical_anomaly(self.anomaly_log@[old_log.len() as int], metric, new_status, now));
            }
        } else if new_status == HealthStatus::Degraded && old_status == HealthStatus::Nominal {
            let mut id = concat2("anomaly-degraded-", cid.as_str());
            id.append("-");
            id.append(secs.as_str());
            let mut description = concat2("Metric '", metric.metric_name.as_str());
            description.append("' warning threshold: ");
            description.append(write_hundredths(metric.value_milli).as_str());
            description.append(" > ");
            description.append(write_hundredths(metric.threshold_warning_milli).as_str());
            let mut action = concat2("Monitor ", cid.as_str());
            action.append(" closely");
            let a = Anomaly {
                id,
                component: metric.component_id.clone(),
                severity: AnomalySeverity::Warning,
                description,
                detected_at: now,
                related_metrics: vec![metric],
                recommended_action: action,
            };
            self.log_push(a);
            proof {
                assert(self.anomaly_log@.take(old_log.len() as int) =~= old_log);
                let a = self.anomaly_log@[old_log.len() as int];
                assert(a.id@ == "anomaly-degraded-"@ + metric.component_id.0@ + "-"@ + spec_signed_decimal(now / 1000));
                assert(a.component == metric.component_id);
                assert(a.related_metrics@ == seq![metric]);
                assert(warning_anomaly(self.anomaly_log@[old_log.len() as int], metric, now));
            }
        }
        proof {
            assert(updated_component(old_components[k as int], self.components@[k as int], metric, now));
            assert(log_after(old_log, self.anomaly_log@, metric, old_status, now));
        }
        Ok(())
    }

    /// Records a measurement on its component now.
    pub fn update_metric(&mut self, metric: HealthMetric) -> (r: Result<(), HealthError>)
        ensures
            final(self).recoveries() == old(self).recoveries(),
            final(self).safe_mode() == old(self).safe_mode(),
            !has_component(old(self).components(), metric.component_id.0@) ==> {
                &&& r == Err::<(), HealthError>(HealthError::ComponentNotFound(metric.component_id))
                &&& final(self).components() == old(self).components()
                &&& final(self).anomalies() == old(self).anomalies()
            },
            has_component(old(self).components(), metric.component_id.0@) ==> r is Ok && exists|now: i64| {
                &&& in_clock_range(now)
                &&& final(self).components().len() == old(self).components().len()
                &&& forall|k: int| 0 <= k < old(self).components().len() ==> if old(self).components()[k].id.0@ == metric.component_id.0@ {
                    &&& updated_component(old(self).components()[k], final(self).components()[k], metric, now)
                    &&& log_after(old(self).anomalies(), final(self).anomalies(), metric, old(self).components()[k].status, now)
                } else {
                    final(self).components()[k] == old(self).components()[k]
                }
            },
    {
        let now = now_millis();
        self.update_metric_at(metric, now)
    }

    /// A copy of the record of the component with this identifier.
    pub fn get_health(&self, component_id: &ComponentId) -> (r: Result<ComponentHealth, HealthError>)
        ensures
            !has_component(self.components(), component_id.0@) ==> r == Err::<ComponentHealth, HealthError>(HealthError::ComponentNotFound(*component_id)),
            has_component(self.components(), component_id.0@) ==> (r matches Ok(c) && forall|k: int|
                0 <= k < self.components().len() && self.components()[k].id.0@ == component_id.0@ ==> same_record(c, self.components()[k])),
    {
        proof {
            use_type_invariant(self);
        }
        match Self::find(&self.components, component_id) {
            None => Err(HealthError::ComponentNotFound(component_id.clone())),
            Some(k) => {
                let c = self.components[k].clone();
                proof {
                    assert forall|j: int| 0 <= j < self.components@.len() && self.components@[j].id.0@ == component_id.0@ implies j == k as int by {
                        if j != k as int {
                            assert(self.components@[j].id.0@ == self.components@[k as int].id.0@);
                        }
                    }
                }
                Ok(c)
            },
        }
    }

    /// Counts of the components by status, the share of nominal ones, the
    /// size of the anomaly log and the safe-mode level.
    pub fn system_health(&self) -> (rep: SystemHealthReport)
        ensures
            rep.total_components == self.components().len(),
            rep.nominal_count == count_status(self.components(), HealthStatus::Nominal),
            rep.degraded_count == count_status(self.components(), HealthStatus::Degraded),
            rep.impaired_count == count_status(self.components(), HealthStatus::Impaired),
            rep.failed_count == count_status(self.components(), HealthStatus::Failed),
            rep.health_basis_points == (if self.components().len() > 0 {
                count_status(self.components(), HealthStatus::Nominal) * 10000 / self.components().len()
            } else {
                10000
            }),
            rep.active_anomalies == self.anomalies().len(),
            rep.safe_mode_level == self.safe_mode(),
    {
        let cs = &self.components;
        let mut nominal: usize = 0;
        let mut degraded: usize = 0;
        let mut impaired: usize = 0;
        let mut failed: usize = 0;
        let mut i: usize = 0;
        while i < cs.len()
            invariant
                i <= cs@.len(),
                nominal == count_status(cs@.take(i as int), HealthStatus::Nominal),
                degraded == count_status(cs@.take(i as int), HealthStatus::Degraded),
                impaired == count_status(cs@.take(i as int), HealthStatus::Impaired),
                failed == count_status(cs@.take(i as int), HealthStatus::Failed),
                nominal <= i,
                degraded <= i,
                impaired <= i,
                failed <= i,
            decreases cs@.len() - i,
        {
            proof {
                assert(cs@.take(i + 1).drop_last() =~= cs@.take(i as int));
            }
            match cs[i].status {
                HealthStatus::Nominal => {
                    nominal = nominal + 1;
                },
                HealthStatus::Degraded => {
                    degraded = degraded + 1;
                },
                HealthStatus::Impaired => {
                    impaired = impaired + 1;
                },
                HealthStatus::Failed => {
                    failed = failed + 1;
                },
                HealthStatus::Recovering => {},
            }
            i = i + 1;
        }
        proof {
            assert(cs@.take(cs@.len() as int) =~= cs@);
        }
        let total = cs.len();
        let health_basis_points: u32 = if total > 0 {
            let q: u128 = (nominal as u128) * 10000 / (total as u128);
            proof {
                assert((nominal as int) * 10000 / (total as int) <= 10000) by (nonlinear_arith)
                    requires
                        nominal <= total,
                        total > 0,
                ;
            }
            q as u32
        } else {
            10000
        };
        SystemHealthReport {
            total_components: total,
            nominal_count: nominal,
            degraded_count: degraded,
            impaired_count: impaired,
            failed_count: failed,
            health_basis_points,
            active_anomalies: self.anomaly_log.len(),
            safe_mode_level: self.safe_mode,
        }
    }

    /// Enters the safe-mode `level`; in minimum safe mode and emergency
    /// shutdown every nominal component is put under closer monitoring
    /// (Degraded). `reason` is for the operator's log.
    pub fn activate_safe_mode(&mut self, level: SafeModeLevel, reason: &str)
        ensures
            final(self).recoveries() == old(self).recoveries(),
            final(self).safe_mode() == level,
            final(self).anomalies() == old(self).anomalies(),
            final(self).components().len() == old(self).components().len(),
            forall|k: int| 0 <= k < old(self).components().len() ==> #[trigger] safe_mode_record(
                final(self).components()[k], old(self).components()[k], level),
    {
        proof {
            use_type_invariant(&*self);
        }
        self.safe_mode = level;
        let mut cs: Vec<ComponentHealth> = Vec::new();
        std::mem::swap(&mut cs, &mut self.components);
        let ghost before = cs@;
        let strict = match level {
            SafeModeLevel::SafeMinimum => true,
            SafeModeLevel::EmergencyShutdown => true,
            _ => false,
        };
        let mut i: usize = 0;
        while i < cs.len()
            invariant
                i <= cs@.len(),
                cs@.len() == before.len(),
                distinct_ids(before),
                strict == (level == SafeModeLevel::SafeMinimum || level == SafeModeLevel::EmergencyShutdown),
                forall|j: int| 0 <= j < cs@.len() ==> cs@[j].id == before[j].id,
                forall|j: int| 0 <= j < i ==> #[trigger] safe_mode_record(cs@[j], before[j], level),
                forall|j: int| i <= j < cs@.len() ==> cs@[j] == before[j],
            decreases cs@.len() - i,
        {
            if strict && cs[i].status == HealthStatus::Nominal {
                let mut c = cs[i].clone();
                c.status = HealthStatus::Degraded;
                cs.set(i, c);
            }
            i = i + 1;
        }
        proof {
            assert forall|a: int, b: int| 0 <= a < b < cs@.len() implies cs@[a].id.0@ != cs@[b].id.0@ by {
                assert(cs@[a].id == before[a].id);
                assert(cs@[b].id == before[b].id);
            }
        }
        self.components = cs;
    }

    /// Copies of the anomalies of severity Warning or above, oldest first.
    pub fn active_anomalies(&self) -> (r: Vec<Anomaly>)
        ensures
            r@.len() == active_of(self.anomalies()).len(),
            forall|i: int| 0 <= i < r@.len() ==> same_anomaly(r@[i], active_of(self.anomalies())[i]),
    {
        let log = &self.anomaly_log;
        let mut r: Vec<Anomaly> = Vec::new();
        let mut i: usize = 0;
        while i < log.len()
            invariant
                i <= log@.len(),
                r@.len() == active_of(log@.take(i as int)).len(),
                forall|j: int| 0 <= j < r@.len() ==> same_anomaly(r@[j], active_of(log@.take(i as int))[j]),
            decreases log@.len() - i,
        {
            proof {
                assert(log@.take(i + 1).drop_last() =~= log@.take(i as int));
            }
            if log[i].severity.rank() >= 1 {
                r.push(log[i].clone());
            }
            i = i + 1;
        }
        proof {
            assert(log@.take(log@.len() as int) =~= log@);
        }
        r
    }

    /// Drops the anomalies detected 24 hours or more before `now`, and
    /// returns how many were dropped.
    pub fn cleanup_old_anomalies_at(&mut self, now: i64) -> (removed: usize)
        requires
            in_clock_range(now),
        ensures
            final(self).recoveries() == old(self).recoveries(),
            final(self).components() == old(self).components(),
            final(self).safe_mode() == old(self).safe_mode(),
            final(self).anomalies() == recent_of(old(self).anomalies(), now - 86_400_000),
            removed == old(self).anomalies().len() - final(self).anomalies().len(),
    {
        proof {
            use_type_invariant(&*self);
        }
        let cutoff: i64 = now - 86_400_000;
        let mut rest: Vec<Anomaly> = Vec::new();
        std::mem::swap(&mut rest, &mut self.anomaly_log);
        let ghost orig = rest@;
        let initial = rest.len();
        let mut kept: Vec<Anomaly> = Vec::new();
        while rest.len() > 0
            invariant
                rest@ == orig.skip(orig.len() - rest@.len()),
                rest@.len() <= orig.len(),
                initial == orig.len(),
                kept@ == recent_of(orig.take(orig.len() - rest@.len()), cutoff as int),
                kept@.len() <= orig.len() - rest@.len(),
            decreases rest@.len(),
        {
            let ghost i = orig.len() - rest@.len();
            let a = rest.remove(0);
            proof {
                assert(orig.take(i + 1).drop_last() =~= orig.take(i));
                assert(a == orig[i]);
                assert(rest@ =~= orig.skip(i + 1));
            }
            if a.detected_at > cutoff {
                kept.push(a);
            }
        }
        proof {
            assert(orig.take(orig.len() as int) =~= orig);
        }
        let removed = initial - kept.len();
        self.anomaly_log = kept;
        removed
    }

    /// Drops the anomalies detected 24 hours or more ago.
    pub fn cleanup_old_anomalies(&mut self) -> (removed: usize)
        ensures
            final(self).recoveries() == old(self).recoveries(),
            final(self).components() == old(self).components(),
            final(self).safe_mode() == old(self).safe_mode(),
            exists|now: i64| in_clock_range(now) && final(self).anomalies() == recent_of(old(self).anomalies(), now - 86_400_000),
            removed == old(self).anomalies().len() - final(self).anomalies().len(),
    {
        let now = now_millis();
        self.cleanup_old_anomalies_at(now)
    }

    /// Appends an anomaly to the log.
    fn log_push(&mut self, a: Anomaly)
        ensures
            final(self).recoveries() == old(self).recoveries(),
            final(self).components() == old(self).components(),
            final(self).safe_mode() == old(self).safe_mode(),
            final(self).anomalies() == old(self).anomalies().push(a),
    {
        proof {
            use_type_invariant(&*self);
        }
        let mut log: Vec<Anomaly> = Vec::new();
        std::mem::swap(&mut log, &mut self.anomaly_log);
        log.push(a);
        self.anomaly_log = log;
    }

    /// Position of the component with this identifier.
    fn find(cs: &Vec<ComponentHealth>, id: &ComponentId) -> (r: Option<usize>)
        ensures
            match r {
                Some(k) => k < cs@.len() && cs@[k as int].id.0@ == id.0@,
                None => !has_component(cs@, id.0@),
            },
    {
        let mut i: usize = 0;
        while i < cs.len()
            invariant
                i <= cs@.len(),
                forall|j: int| 0 <= j < i ==> cs@[j].id.0@ != id.0@,
            decreases cs@.len() - i,
        {
            if cs[i].id.0 == id.0 {
                return Some(i);
            }
            i = i + 1;
        }
        None
    }
}

} // verus!
