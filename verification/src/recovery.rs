//! Automatic recovery of failed components, escalating step by step:
//! soft restart, hard restart, failover, isolation, safe mode.

use vstd::prelude::*;
use crate::clock::{now_millis, in_clock_range};
use crate::health::{ComponentId, ComponentType, HealthStatus};

verus! {

/// Recovery strategy, in escalation order.
#[derive(Debug, Clone, Copy, PartialEq, Eq, Structural)]
pub enum RecoveryStrategy {
    /// Software restart of the component.
    SoftRestart,
    /// Hardware restart (power cycle).
    HardRestart,
    /// Switch to the redundant component.
    Failover,
    /// Isolate the component and reallocate its resources.
    Isolate,
    /// Enter safe mode.
    EnterSafeMode,
}

impl RecoveryStrategy {
    /// Position in the escalation order, 0 (soft restart) to 4 (safe mode).
    pub open spec fn step(self) -> int {
        match self {
            RecoveryStrategy::SoftRestart => 0,
            RecoveryStrategy::HardRestart => 1,
            RecoveryStrategy::Failover => 2,
            RecoveryStrategy::Isolate => 3,
            RecoveryStrategy::EnterSafeMode => 4,
        }
    }
}

/// The strategy after `s` in the escalation order; safe mode is the last
/// resort and stays.
pub open spec fn spec_escalate(s: RecoveryStrategy) -> RecoveryStrategy {
    match s {
        RecoveryStrategy::SoftRestart => RecoveryStrategy::HardRestart,
        RecoveryStrategy::HardRestart => RecoveryStrategy::Failover,
        RecoveryStrategy::Failover => RecoveryStrategy::Isolate,
        RecoveryStrategy::Isolate => RecoveryStrategy::EnterSafeMode,
        RecoveryStrategy::EnterSafeMode => RecoveryStrategy::EnterSafeMode,
    }
}

/// Escalation never goes back: each step moves one level up the order,
/// and safe mode, the last level, stays.
pub proof fn lemma_escalation_moves_up(s: RecoveryStrategy)
    ensures
        spec_escalate(s).step() == (if s.step() < 4 { s.step() + 1 } else { 4 }),
        spec_escalate(s).step() >= s.step(),
{
}

/// Four escalations from any strategy end in safe mode.
pub proof fn lemma_escalation_reaches_safe_mode(s: RecoveryStrategy)
    ensures
        spec_escalate(spec_escalate(spec_escalate(spec_escalate(s)))) == RecoveryStrategy::EnterSafeMode,
{
}

/// The first strategy tried for each kind of component; the others start
/// with a soft restart.
pub open spec fn spec_strategy_for(t: ComponentType) -> RecoveryStrategy {
    match t {
        ComponentType::Processor => RecoveryStrategy::SoftRestart,
        ComponentType::Memory => RecoveryStrategy::HardRestart,
        ComponentType::Power => RecoveryStrategy::Failover,
        ComponentType::Communication => RecoveryStrategy::SoftRestart,
        ComponentType::LifeSupport => RecoveryStrategy::EnterSafeMode,
        ComponentType::Thruster => RecoveryStrategy::Isolate,
        ComponentType::Camera => RecoveryStrategy::SoftRestart,
        ComponentType::Navigation => RecoveryStrategy::HardRestart,
        _ => RecoveryStrategy::SoftRestart,
    }
}

/// What a strategy reports, and the status it leaves the component in.
pub open spec fn spec_outcome(s: RecoveryStrategy) -> (Seq<char>, HealthStatus) {
    match s {
        RecoveryStrategy::SoftRestart => ("Soft restart completed"@, HealthStatus::Nominal),
        RecoveryStrategy::HardRestart => ("Hard restart (power cycle) completed"@, HealthStatus::Nominal),
        RecoveryStrategy::Failover => ("Failed over to redundant component"@, HealthStatus::Nominal),
        RecoveryStrategy::Isolate => ("Component isolated, resources reallocated"@, HealthStatus::Impaired),
        RecoveryStrategy::EnterSafeMode => ("Safe mode activated"@, HealthStatus::Degraded),
    }
}

/// Outcome of a recovery attempt.
#[derive(Debug)]
pub struct RecoveryResult {
    pub component_id: ComponentId,
    pub strategy: RecoveryStrategy,
    pub attempt: u32,
    pub success: bool,
    pub duration_ms: u64,
    pub detail: String,
    pub new_status: HealthStatus,
}

/// Recovery history of a component.
#[derive(Debug)]
pub struct RecoveryHistory {
    pub component_id: ComponentId,
    pub total_attempts: u32,
    pub successful: u32,
    pub last_strategy: Option<RecoveryStrategy>,
    pub last_success: bool,
    pub last_recovery_at: Option<i64>,
    /// Mean duration of the attempts, in milliseconds (not measured yet:
    /// stays 0).
    pub average_recovery_time_ms: u64,
}

/// Recovery statistics over all components.
#[derive(Debug, Clone, Copy, PartialEq, Eq, Structural)]
pub struct RecoveryStats {
    pub total_components_recovered: usize,
    pub total_attempts: u128,
    pub successful: u128,
    /// Share of successful attempts, in thousandths (rounded down); 1000
    /// when nothing was attempted.
    pub success_rate_permille: u32,
}

/// The automatic recovery engine.
pub struct AutoRecoveryEngine {
    max_attempts_per_level: u32,
    history: Vec<RecoveryHistory>,
}

/// No two histories are for the same component.
pub open spec fn distinct_histories(hs: Seq<RecoveryHistory>) -> bool {
    forall|i: int, j: int| 0 <= i < j < hs.len() ==> hs[i].component_id.0@ != hs[j].component_id.0@
}

/// Whether a component has a history.
pub open spec fn has_history(hs: Seq<RecoveryHistory>, id: Seq<char>) -> bool {
    exists|k: int| 0 <= k < hs.len() && hs[k].component_id.0@ == id
}

/// The history `h1` is `h0` after one more attempt with strategy `s`, at
/// `now`, that succeeded.
pub open spec fn history_after(h0: RecoveryHistory, h1: RecoveryHistory, s: RecoveryStrategy, now: i64) -> bool {
    &&& h1.component_id == h0.component_id
    &&& h1.total_attempts == (if h0.total_attempts < u32::MAX { h0.total_attempts + 1 } else { h0.total_attempts as int })
    &&& h1.successful == (if h0.successful < u32::MAX { h0.successful + 1 } else { h0.successful as int })
    &&& h1.last_strategy == Some(s)
    &&& h1.last_success
    &&& h1.last_recovery_at == Some(now)
    &&& h1.average_recovery_time_ms == h0.average_recovery_time_ms
}

/// The empty history of a component.
pub open spec fn empty_history(h: RecoveryHistory, id: ComponentId) -> bool {
    &&& h.component_id == id
    &&& h.total_attempts == 0
    &&& h.successful == 0
    &&& h.last_strategy is None
    &&& !h.last_success
    &&& h.last_recovery_at is None
    &&& h.average_recovery_time_ms == 0
}

/// Sum of the attempts (or of the successes) of the histories.
pub open spec fn sum_attempts(hs: Seq<RecoveryHistory>, successes: bool) -> nat
    decreases hs.len(),
{
    if hs.len() == 0 {
        0
    } else {
        sum_attempts(hs.drop_last(), successes) + (if successes { hs.last().successful as nat } else {
            hs.last().total_attempts as nat
        })
    }
}

/// The result of a recovery with strategy `s` of the component `id`.
pub open spec fn result_of(r: RecoveryResult, id: ComponentId, s: RecoveryStrategy) -> bool {
    &&& r.component_id == id
    &&& r.strategy == s
    &&& r.success
    &&& r.detail@ == spec_outcome(s).0
    &&& r.new_status == spec_outcome(s).1
}

/// The histories `hs1` are `hs0` after an attempt on `id` with strategy
/// `s` at `now`, which was the component's attempt number `attempt`.
pub open spec fn recorded(hs0: Seq<RecoveryHistory>, hs1: Seq<RecoveryHistory>, id: ComponentId, s: RecoveryStrategy, now: i64, attempt: u32) -> bool {
    if has_history(hs0, id.0@) {
        &&& hs1.len() == hs0.len()
        &&& forall|k: int| 0 <= k < hs0.len() ==> if hs0[k].component_id.0@ == id.0@ {
            history_after(hs0[k], hs1[k], s, now) && attempt == hs1[k].total_attempts
        } else {
            hs1[k] == hs0[k]
        }
    } else {
        &&& hs1.len() == hs0.len() + 1
        &&& hs1.take(hs0.len() as int) == hs0
        &&& hs1.last().component_id == id
        &&& hs1.last().total_attempts == 1
        &&& hs1.last().successful == 1
        &&& hs1.last().last_strategy == Some(s)
        &&& hs1.last().last_success
        &&& hs1.last().last_recovery_at == Some(now)
        &&& hs1.last().average_recovery_time_ms == 0
        &&& attempt == 1
    }
}

impl AutoRecoveryEngine {
    #[verifier::type_invariant]
    spec fn well_formed(self) -> bool {
        &&& distinct_histories(self.history@)
        &&& forall|k: int| 0 <= k < self.history@.len() ==> #[trigger] self.history@[k].successful <= self.history@[k].total_attempts
    }

    /// The recovery histories, in the order the components first failed.
    pub closed spec fn histories(self) -> Seq<RecoveryHistory> {
        self.history@
    }

    /// The number of attempts at one level before escalating.
    pub closed spec fn attempts_per_level(self) -> u32 {
        self.max_attempts_per_level
    }

    /// An engine with no history; three attempts per level.
    pub fn new() -> (e: Self)
        ensures
            e.histories().len() == 0,
            e.attempts_per_level() == 3,
    {
        AutoRecoveryEngine { max_attempts_per_level: 3, history: Vec::new() }
    }

    /// The first strategy tried for a kind of component.
    pub fn strategy_for(component_type: &ComponentType) -> (s: RecoveryStrategy)
        ensures
            s == spec_strategy_for(*component_type),
    {
        match component_type {
            ComponentType::Processor => RecoveryStrategy::SoftRestart,
            ComponentType::Memory => RecoveryStrategy::HardRestart,
            ComponentType::Power => RecoveryStrategy::Failover,
            ComponentType::Communication => RecoveryStrategy::SoftRestart,
            ComponentType::LifeSupport => RecoveryStrategy::EnterSafeMode,
            ComponentType::Thruster => RecoveryStrategy::Isolate,
            ComponentType::Camera => RecoveryStrategy::SoftRestart,
            ComponentType::Navigation => RecoveryStrategy::HardRestart,
            _ => RecoveryStrategy::SoftRestart,
        }
    }

    /// Simulates one recovery of a component at `now` with the first
    /// strategy for its kind, and records it in the component's history.
    pub fn attempt_recovery_at(&mut self, component_id: &ComponentId, component_type: &ComponentType, now: i64) -> (r: RecoveryResult)
        ensures
            result_of(r, *component_id, spec_strategy_for(*component_type)),
            r.duration_ms == 0,
            recorded(old(self).histories(), final(self).histories(), *component_id, spec_strategy_for(*component_type), now, r.attempt),
            final(self).attempts_per_level() == old(self).attempts_per_level(),
    {
        proof {
            use_type_invariant(&*self);
        }
        let strategy = Self::strategy_for(component_type);
        let (detail, new_status) = match strategy {
            RecoveryStrategy::SoftRestart => ("Soft restart completed".to_string(), HealthStatus::Nominal),
            RecoveryStrategy::HardRestart => ("Hard restart (power cycle) completed".to_string(), HealthStatus::Nominal),
            RecoveryStrategy::Failover => ("Failed over to redundant component".to_string(), HealthStatus::Nominal),
            RecoveryStrategy::Isolate => ("Component isolated, resources reallocated".to_string(), HealthStatus::Impaired),
            RecoveryStrategy::EnterSafeMode => ("Safe mode activated".to_string(), HealthStatus::Degraded),
        };
        let mut hs: Vec<RecoveryHistory> = Vec::new();
        std::mem::swap(&mut hs, &mut self.history);
        let ghost before = hs@;
        let k = match Self::find(&hs, component_id) {
            Some(k) => k,
            None => {
                hs.push(RecoveryHistory {
                    component_id: component_id.clone(),
                    total_attempts: 0,
                    successful: 0,
                    last_strategy: None,
                    last_success: false,
                    last_recovery_at: None,
                    average_recovery_time_ms: 0,
                });
                proof {
                    assert forall|i: int, j: int| 0 <= i < j < hs@.len() implies hs@[i].component_id.0@ != hs@[j].component_id.0@ by {
                        if j == before.len() {
                            assert(before[i].component_id.0@ != component_id.0@);
                        }
                    }
                }
                hs.len() - 1
            },
        };
        let ghost mid = hs@;
        let h0 = &hs[k];
        let h1 = RecoveryHistory {
            component_id: h0.component_id.clone(),
            total_attempts: h0.total_attempts.saturating_add(1),
            successful: h0.successful.saturating_add(1),
            last_strategy: Some(strategy),
            last_success: true,
            last_recovery_at: Some(now),
            average_recovery_time_ms: h0.average_recovery_time_ms,
        };
        let attempt = h1.total_attempts;
        hs.set(k, h1);
        proof {
            assert forall|i: int, j: int| 0 <= i < j < hs@.len() implies hs@[i].component_id.0@ != hs@[j].component_id.0@ by {
                if i == k as int || j == k as int {
                    assert(mid[k as int].component_id == hs@[k as int].component_id);
                }
            }
            assert forall|i: int| 0 <= i < before.len() && before[i].component_id.0@ == component_id.0@ implies i == k as int by {
                if i != k as int {
                    assert(mid[i].component_id.0@ == mid[k as int].component_id.0@);
                }
            }
            if !has_history(before, component_id.0@) {
                assert(hs@.take(before.len() as int) =~= before);
            }
        }
        self.history = hs;
        RecoveryResult {
            component_id: component_id.clone(),
            strategy,
            attempt,
            success: true,
            duration_ms: 0,
            detail,
            new_status,
        }
    }

    /// Simulates one recovery of a component now, and measures how long
    /// it took.
    pub fn attempt_recovery(&mut self, component_id: &ComponentId, component_type: &ComponentType) -> (r: RecoveryResult)
        ensures
            result_of(r, *component_id, spec_strategy_for(*component_type)),
            exists|now: i64| in_clock_range(now)
                && recorded(old(self).histories(), final(self).histories(), *component_id, spec_strategy_for(*component_type), now, r.attempt),
            final(self).attempts_per_level() == old(self).attempts_per_level(),
    {
        let start = now_millis();
        let mut r = self.attempt_recovery_at(component_id, component_type, start);
        let end = now_millis();
        r.duration_ms = if end >= start { (end - start) as u64 } else { 0 };
        r
    }

    /// The strategy to try after `current_strategy`: the next one in the
    /// escalation order; safe mode stays the last resort.
    pub fn escalate_strategy(&self, component_id: &ComponentId, current_strategy: &RecoveryStrategy) -> (s: RecoveryStrategy)
        ensures
            s == spec_escalate(*current_strategy),
    {
        match current_strategy {
            RecoveryStrategy::SoftRestart => RecoveryStrategy::HardRestart,
            RecoveryStrategy::HardRestart => RecoveryStrategy::Failover,
            RecoveryStrategy::Failover => RecoveryStrategy::Isolate,
            RecoveryStrategy::Isolate => RecoveryStrategy::EnterSafeMode,
            RecoveryStrategy::EnterSafeMode => RecoveryStrategy::EnterSafeMode,
        }
    }

    /// The history of a component, if it was ever recovered.
    pub fn get_history(&self, component_id: &ComponentId) -> (r: Option<&RecoveryHistory>)
        ensures
            match r {
                Some(h) => exists|k: int| 0 <= k < self.histories().len() && self.histories()[k] == *h
                    && h.component_id.0@ == component_id.0@,
                None => !has_history(self.histories(), component_id.0@),
            },
    {
        match Self::find(&self.history, component_id) {
            Some(k) => {
                let h = &self.history[k];
                proof {
                    assert(self.histories()[k as int] == *h);
                }
                Some(h)
            },
            None => None,
        }
    }

    /// Totals over all histories.
    pub fn statistics(&self) -> (st: RecoveryStats)
        ensures
            st.total_components_recovered == self.histories().len(),
            st.total_attempts == sum_attempts(self.histories(), false),
            st.successful == sum_attempts(self.histories(), true),
            st.success_rate_permille == (if st.total_attempts > 0 { st.successful * 1000 / (st.total_attempts as int) } else { 1000 }),
    {
        proof {
            use_type_invariant(self);
        }
        let hs = &self.history;
        let mut total: u128 = 0;
        let mut successful: u128 = 0;
        let mut i: usize = 0;
        while i < hs.len()
            invariant
                i <= hs@.len(),
                forall|k: int| 0 <= k < hs@.len() ==> #[trigger] hs@[k].successful <= hs@[k].total_attempts,
                total == sum_attempts(hs@.take(i as int), false),
                successful == sum_attempts(hs@.take(i as int), true),
                total <= i * (u32::MAX as int),
                successful <= total,
            decreases hs@.len() - i,
        {
            proof {
                assert(hs@.take(i + 1).drop_last() =~= hs@.take(i as int));
                assert(hs@[i as int].successful <= hs@[i as int].total_attempts);
                assert((i + 1) * (u32::MAX as int) == i * (u32::MAX as int) + u32::MAX) by (nonlinear_arith);
                assert(i * (u32::MAX as int) <= u64::MAX * (u32::MAX as int)) by (nonlinear_arith)
                    requires
                        i < hs@.len(),
                        hs@.len() <= usize::MAX,
                        usize::MAX <= u64::MAX,
                ;
            }
            total = total + hs[i].total_attempts as u128;
            successful = successful + hs[i].successful as u128;
            i = i + 1;
        }
        proof {
            assert(hs@.take(hs@.len() as int) =~= hs@);
        }
        let success_rate_permille: u32 = if total > 0 {
            let q: u128 = (successful as u128) * 1000 / (total as u128);
            proof {
                assert((successful as int) * 1000 / (total as int) <= 1000) by (nonlinear_arith)
                    requires
                        successful <= total,
                        total > 0,
                ;
            }
            q as u32
        } else {
            1000
        };
        RecoveryStats {
            total_components_recovered: hs.len(),
            total_attempts: total,
            successful,
            success_rate_permille,
        }
    }

    /// Position of the history of a component.
    fn find(hs: &Vec<RecoveryHistory>, id: &ComponentId) -> (r: Option<usize>)
        ensures
            match r {
                Some(k) => k < hs@.len() && hs@[k as int].component_id.0@ == id.0@,
                None => !has_history(hs@, id.0@),
            },
    {
        let mut i: usize = 0;
        while i < hs.len()
            invariant
                i <= hs@.len(),
                forall|j: int| 0 <= j < i ==> hs@[j].component_id.0@ != id.0@,
            decreases hs@.len() - i,
        {
            if hs[i].component_id.0 == id.0 {
                return Some(i);
            }
            i = i + 1;
        }
        None
    }
}

} // verus!
