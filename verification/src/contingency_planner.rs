//! Contingency plans for failed tasks and lost resources. Times are Unix
//! milliseconds; impact figures are integers in the units their names give.

use vstd::prelude::*;
use crate::tasks::{MarsTask, TaskId, TaskCategory};
use crate::clock::{now_millis, in_clock_range, now_stamp};
use crate::text::{spec_signed_decimal, spec_decimal, u64_to_decimal, concat2, str_eq};

verus! {

/// Severity of a situation.
#[derive(Debug, Clone, Copy, PartialEq, Eq, Structural)]
pub enum SeverityLevel {
    /// Minor impact, no urgency.
    Low,
    /// Significant impact, replanning needed.
    Moderate,
    /// Critical impact, immediate action.
    High,
    /// Danger for the mission or the crew.
    Critical,
}

impl SeverityLevel {
    /// The level's rank, 0 (Low) to 3 (Critical).
    pub open spec fn rank(self) -> int {
        match self {
            SeverityLevel::Low => 0,
            SeverityLevel::Moderate => 1,
            SeverityLevel::High => 2,
            SeverityLevel::Critical => 3,
        }
    }

    /// The level's name.
    pub open spec fn spec_name(self) -> Seq<char> {
        match self {
            SeverityLevel::Low => "Low"@,
            SeverityLevel::Moderate => "Moderate"@,
            SeverityLevel::High => "High"@,
            SeverityLevel::Critical => "Critical"@,
        }
    }

    /// The level's name.
    pub fn name(&self) -> (s: String)
        ensures
            s@ == self.spec_name(),
    {
        match self {
            SeverityLevel::Low => "Low".to_string(),
            SeverityLevel::Moderate => "Moderate".to_string(),
            SeverityLevel::High => "High".to_string(),
            SeverityLevel::Critical => "Critical".to_string(),
        }
    }
}

/// Anomaly that triggers a contingency; amounts are in thousandths.
#[derive(Debug)]
pub enum AnomalyType {
    TaskFailure { task_id: TaskId, error_code: String },
    ResourceLoss { resource: String, lost_amount_milli: i64 },
    CommunicationBlackout { expected_duration_secs: u32 },
    HardwareDegradation { component: String, remaining_life_permille: u32 },
    EnvironmentalHazard { hazard_type: String, duration_secs: u32 },
    CrewEmergency,
}

/// Contingency action.
#[derive(Debug)]
pub enum ContingencyAction {
    /// Replan a task in another slot.
    Reschedule { task_id: TaskId, reason: String, delay_seconds: u32, new_priority: Option<u16> },
    /// Replace a task by an alternative.
    Substitute { original_task: TaskId, substitute_task: TaskId, substitution_reason: String },
    /// Enter safe mode.
    EnterSafeMode { reason: String, affected_systems: Vec<String> },
    /// Reallocate resources.
    ReallocateResources { from_task: TaskId, to_task: TaskId, resources: Vec<String> },
    /// Cancel non-critical tasks.
    CancelNonCritical { categories: Vec<TaskCategory>, reason: String },
    /// Switch to a redundant path.
    ActivateRedundancy { system: String, redundant_path: String },
    /// Notify mission control.
    NotifyMissionControl { severity: SeverityLevel, summary: String, data_bundle: Vec<u8> },
}

/// Impact of a plan.
#[derive(Debug, Clone, Copy, PartialEq, Eq, Structural)]
pub struct ImpactAssessment {
    /// Scientific value lost, in thousandths.
    pub scientific_value_loss_permille: u16,
    /// Extra energy consumed, in milliwatt-hours.
    pub energy_impact_mwh: u32,
    /// Total delay, in minutes.
    pub time_impact_minutes: u32,
    /// Crew risk, in thousandths.
    pub crew_risk_permille: u16,
    /// Share of the mission maintained, in percent.
    pub mission_continuity_pct: u8,
}

/// A contingency plan.
#[derive(Debug)]
pub struct ContingencyPlan {
    pub plan_id: String,
    pub triggered_by: AnomalyType,
    pub severity: SeverityLevel,
    pub affected_tasks: Vec<TaskId>,
    pub actions: Vec<ContingencyAction>,
    pub estimated_impact: ImpactAssessment,
    pub created_at: i64,
    pub expires_at: i64,
}

/// The contingency planner.
pub struct ContingencyPlanner {
    max_plans_per_event: usize,
}


/// The severity of a failed task, by its category; a science task is
/// High when its value exceeds 0.8.
pub open spec fn spec_severity(t: MarsTask) -> SeverityLevel {
    match t.category {
        TaskCategory::Emergency => SeverityLevel::Critical,
        TaskCategory::LifeSupport => SeverityLevel::Critical,
        TaskCategory::Communication => SeverityLevel::High,
        TaskCategory::Science => if t.scientific_value_milli > 800 {
            SeverityLevel::High
        } else {
            SeverityLevel::Moderate
        },
        TaskCategory::Maintenance => SeverityLevel::Low,
        TaskCategory::Navigation => SeverityLevel::Moderate,
    }
}

/// Whether a task depends on the given task.
pub open spec fn depends_on(t: MarsTask, id: TaskId) -> bool {
    exists|k: int| 0 <= k < t.dependencies@.len() && t.dependencies@[k].0@ == id.0@
}

/// The position of the first task that depends on `id`.
pub open spec fn first_dependent(ts: Seq<MarsTask>, id: TaskId) -> Option<int> {
    if exists|k: int| 0 <= k < ts.len() && depends_on(ts[k], id) {
        Some(choose|k: int| 0 <= k < ts.len() && depends_on(ts[k], id) && forall|m: int| 0 <= m < k ==> !depends_on(ts[m], id))
    } else {
        None
    }
}

/// The actions planned for a failed task, in order: retry it 10 minutes
/// later with 10 more priority; switch to the backup of an emergency or
/// life-support system; delay the first dependent task 20 minutes; and
/// notify mission control when the severity is High or Critical.
pub open spec fn failure_actions_match(t: MarsTask, ts: Seq<MarsTask>, actions: Seq<ContingencyAction>) -> bool {
    let sev = spec_severity(t);
    let redundancy = t.category == TaskCategory::Emergency || t.category == TaskCategory::LifeSupport;
    let dependent = first_dependent(ts, t.id);
    let notify = sev == SeverityLevel::High || sev == SeverityLevel::Critical;
    let n = 1 + (if redundancy { 1int } else { 0 }) + (if dependent is Some { 1int } else { 0 }) + (if notify { 1int } else { 0 });
    let i_dep = 1 + (if redundancy { 1int } else { 0 });
    let i_notify = i_dep + (if dependent is Some { 1int } else { 0 });
    &&& actions.len() == n
    &&& actions[0] matches ContingencyAction::Reschedule { task_id, reason, delay_seconds, new_priority } && task_id == t.id
        && reason@ == "Retrying failed task: "@ + t.name@ && delay_seconds == 600 && new_priority == Some(
        (if t.priority + 10 <= u16::MAX { t.priority + 10 } else { u16::MAX as int }) as u16,
    )
    &&& redundancy ==> (actions[1] matches ContingencyAction::ActivateRedundancy { system, redundant_path }
        && system@ == t.category.spec_name() && redundant_path@ == "backup_"@ + t.category.spec_name())
    &&& dependent matches Some(d) ==> (actions[i_dep] matches ContingencyAction::Reschedule { task_id, reason, delay_seconds, new_priority }
        && task_id == ts[d].id && reason@ == "Dependent task blocked by failure of "@ + t.id.0@ && delay_seconds == 1200
        && new_priority is None)
    &&& notify ==> (actions[i_notify] matches ContingencyAction::NotifyMissionControl { severity, summary, data_bundle }
        && severity == sev && summary@ == "Task "@ + t.id.0@ + " failed with severity "@ + sev.spec_name()
        && data_bundle@.len() == 0)
}

/// The plan for a failed task made at time `now` with the clock text
/// `stamp`.
pub open spec fn failure_plan_matches(t: MarsTask, ts: Seq<MarsTask>, now: i64, stamp: Seq<char>, p: ContingencyPlan) -> bool {
    let sev = spec_severity(t);
    &&& p.plan_id@ == "contingency-"@ + t.id.0@ + "-"@ + stamp
    &&& p.triggered_by matches AnomalyType::TaskFailure { task_id, error_code } && task_id == t.id
        && error_code@ == "TASK_FAILURE"@
    &&& p.severity == sev
    &&& p.affected_tasks@ == seq![t.id]
    &&& failure_actions_match(t, ts, p.actions@)
    &&& p.estimated_impact == (ImpactAssessment {
        scientific_value_loss_permille: if t.category == TaskCategory::Science { 300 } else { 100 },
        energy_impact_mwh: 5000,
        time_impact_minutes: 10,
        crew_risk_permille: match sev {
            SeverityLevel::Critical => 900,
            SeverityLevel::High => 600,
            SeverityLevel::Moderate => 300,
            SeverityLevel::Low => 0,
        },
        mission_continuity_pct: match sev {
            SeverityLevel::Critical => 70,
            SeverityLevel::High => 85,
            SeverityLevel::Moderate => 95,
            SeverityLevel::Low => 99,
        },
    })
    &&& p.created_at == now
    &&& p.expires_at == now + 3_600_000
}

/// The plan for a failed Emergency or LifeSupport task is Critical: it
/// activates the backup system, tells mission control with severity
/// Critical, and puts the crew risk at 900 per mille.
pub proof fn lemma_vital_failure_is_critical(t: MarsTask, ts: Seq<MarsTask>, now: i64, stamp: Seq<char>, p: ContingencyPlan)
    requires
        failure_plan_matches(t, ts, now, stamp, p),
        t.category == TaskCategory::Emergency || t.category == TaskCategory::LifeSupport,
    ensures
        p.severity == SeverityLevel::Critical,
        p.estimated_impact.crew_risk_permille == 900,
        exists|i: int| 0 <= i < p.actions@.len() && (#[trigger] p.actions@[i] matches ContingencyAction::NotifyMissionControl { severity, .. }
            && severity == SeverityLevel::Critical),
        p.actions@[1] is ActivateRedundancy,
{
    let dependent = first_dependent(ts, t.id);
    let i = 2 + (if dependent is Some { 1int } else { 0 });
    assert(p.actions@[i] matches ContingencyAction::NotifyMissionControl { severity, .. } && severity == SeverityLevel::Critical);
}

/// Whether a task critically needs the resource.
pub open spec fn critically_needs(t: MarsTask, resource: Seq<char>) -> bool {
    exists|k: int| 0 <= k < t.required_resources@.len() && t.required_resources@[k].resource_type@ == resource
        && t.required_resources@[k].critical
}

/// The tasks that critically need a resource, in order.
pub open spec fn needing(ts: Seq<MarsTask>, resource: Seq<char>) -> Seq<MarsTask> {
    ts.filter(needs_pred(resource))
}

/// The predicate "critically needs `resource`".
pub open spec fn needs_pred(resource: Seq<char>) -> spec_fn(MarsTask) -> bool {
    |t: MarsTask| critically_needs(t, resource)
}

/// Whether a task is of a category that can give up resources.
pub open spec fn is_non_critical(t: MarsTask) -> bool {
    t.category == TaskCategory::Science || t.category == TaskCategory::Navigation
}

/// The position of the first task that can give up resources.
pub open spec fn first_non_critical(ts: Seq<MarsTask>) -> Option<int> {
    if exists|k: int| 0 <= k < ts.len() && is_non_critical(ts[k]) {
        Some(choose|k: int| 0 <= k < ts.len() && is_non_critical(ts[k]) && forall|m: int| 0 <= m < k ==> !is_non_critical(ts[m]))
    } else {
        None
    }
}

/// The severity of a resource loss by the number of tasks affected.
pub open spec fn loss_severity(affected: nat) -> SeverityLevel {
    if affected > 3 {
        SeverityLevel::High
    } else if affected == 0 {
        SeverityLevel::Low
    } else {
        SeverityLevel::Moderate
    }
}

/// A quantity in thousandths as `f64`'s `Display` writes it: integer
/// part, then up to three decimals with trailing zeros removed.
pub open spec fn milli_text(m: int) -> Seq<char> {
    let a = if m < 0 { -m } else { m };
    let sign: Seq<char> = if m < 0 { "-"@ } else { Seq::empty() };
    let frac = a % 1000;
    sign + spec_signed_decimal(a / 1000) + if frac == 0 {
        Seq::empty()
    } else if frac % 100 == 0 {
        seq!['.'] + spec_signed_decimal(frac / 100)
    } else if frac % 10 == 0 {
        seq!['.'] + (if frac < 100 { seq!['0'] } else { Seq::empty() }) + spec_signed_decimal(frac / 10)
    } else {
        seq!['.'] + (if frac < 10 { seq!['0', '0'] } else if frac < 100 { seq!['0'] } else { Seq::empty() })
            + spec_signed_decimal(frac)
    }
}

/// The plan for the loss of a resource made at time `now` with the clock
/// text `stamp`.
pub open spec fn loss_plan_matches(
    resource: Seq<char>,
    lost_amount_milli: i64,
    ts: Seq<MarsTask>,
    now: i64,
    stamp: Seq<char>,
    p: ContingencyPlan,
) -> bool {
    let affected = needing(ts, resource);
    let sev = loss_severity(affected.len());
    let realloc = affected.len() > 0 && first_non_critical(ts) is Some;
    let safe = sev.rank() >= SeverityLevel::High.rank();
    &&& p.plan_id@ == "contingency-resource-"@ + stamp
    &&& p.triggered_by matches AnomalyType::ResourceLoss { resource: r, lost_amount_milli: l } && r@ == resource
        && l == lost_amount_milli
    &&& p.severity == sev
    &&& p.affected_tasks@ == affected.map_values(|t: MarsTask| t.id)
    &&& p.actions@.len() == (if realloc { 1int } else { 0 }) + (if safe { 1int } else { 0 })
    &&& realloc ==> (p.actions@[0] matches ContingencyAction::ReallocateResources { from_task, to_task, resources }
        && from_task == ts[first_non_critical(ts)->0].id && to_task == affected[0].id
        && resources@.len() == 1 && resources@[0]@ == resource)
    &&& safe ==> (p.actions@[if realloc { 1int } else { 0 }] matches ContingencyAction::EnterSafeMode { reason, affected_systems }
        && reason@ == "Critical resource loss: "@ + resource + " ("@ + milli_text(lost_amount_milli as int) + " lost)"@
        && affected_systems@.map_values(|s: String| s@) == affected.map_values(|t: MarsTask| t.id.0@))
    &&& p.estimated_impact == (ImpactAssessment {
        scientific_value_loss_permille: 200,
        energy_impact_mwh: 0,
        time_impact_minutes: 30,
        crew_risk_permille: if sev == SeverityLevel::Critical { 800 } else { 100 },
        mission_continuity_pct: if sev == SeverityLevel::Critical { 60 } else { 90 },
    })
    &&& p.created_at == now
    &&& p.expires_at == now + 1_800_000
}

impl ContingencyPlanner {
    /// A planner (up to three plans per event).
    pub fn new() -> (p: Self)
        ensures
            p.max_plans() == 3,
    {
        ContingencyPlanner { max_plans_per_event: 3 }
    }

    /// The most plans per event.
    pub closed spec fn max_plans(&self) -> usize {
        self.max_plans_per_event
    }

    /// The severity of a failed task.
    fn assess_severity(&self, task: &MarsTask) -> (s: SeverityLevel)
        ensures
            s == spec_severity(*task),
    {
        match task.category {
            TaskCategory::Emergency => SeverityLevel::Critical,
            TaskCategory::LifeSupport => SeverityLevel::Critical,
            TaskCategory::Communication => SeverityLevel::High,
            TaskCategory::Science => if task.scientific_value_milli > 800 {
                SeverityLevel::High
            } else {
                SeverityLevel::Moderate
            },
            TaskCategory::Maintenance => SeverityLevel::Low,
            TaskCategory::Navigation => SeverityLevel::Moderate,
        }
    }

    /// Whether `t` lists `id` among its dependencies.
    fn has_dependency(t: &MarsTask, id: &TaskId) -> (r: bool)
        ensures
            r == depends_on(*t, *id),
    {
        let mut k: usize = 0;
        while k < t.dependencies.len()
            invariant
                k <= t.dependencies@.len(),
                forall|m: int| 0 <= m < k ==> t.dependencies@[m].0@ != id.0@,
            decreases t.dependencies@.len() - k,
        {
            if t.dependencies[k].0 == id.0 {
                return true;
            }
            k = k + 1;
        }
        false
    }

    /// The plan for a failed task at time `now`, with `stamp` the clock
    /// text that ends the plan's identifier.
    pub fn plan_at(&self, failed_task: &MarsTask, all_tasks: &[MarsTask], now: i64, stamp: &str) -> (p: Option<ContingencyPlan>)
        requires
            in_clock_range(now),
        ensures
            p matches Some(plan) && failure_plan_matches(*failed_task, all_tasks@, now, stamp@, plan),
    {
        let severity = self.assess_severity(failed_task);
        let mut actions: Vec<ContingencyAction> = Vec::new();

        actions.push(ContingencyAction::Reschedule {
            task_id: failed_task.id.clone(),
            reason: concat2("Retrying failed task: ", failed_task.name.as_str()),
            delay_seconds: 600,
            new_priority: Some(failed_task.priority.saturating_add(10)),
        });

        let redundancy = failed_task.category == TaskCategory::Emergency || failed_task.category == TaskCategory::LifeSupport;
        if redundancy {
            let name = failed_task.category.category_name();
            actions.push(ContingencyAction::ActivateRedundancy {
                system: failed_task.category.category_name(),
                redundant_path: concat2("backup_", name.as_str()),
            });
        }
        let ghost after_redundancy = actions@;

        let mut k: usize = 0;
        let mut dep: Option<usize> = None;
        while k < all_tasks.len() && dep.is_none()
            invariant
                k <= all_tasks@.len(),
                forall|m: int| 0 <= m < k ==> (dep is None ==> !depends_on(all_tasks@[m], failed_task.id)),
                dep matches Some(d) ==> (d < all_tasks@.len() && depends_on(all_tasks@[d as int], failed_task.id)
                    && forall|m: int| 0 <= m < d ==> !depends_on(all_tasks@[m], failed_task.id)),
                dep is None ==> forall|m: int| 0 <= m < k ==> !depends_on(all_tasks@[m], failed_task.id),
            decreases all_tasks@.len() - k + (if dep is None { 1int } else { 0 }),
        {
            if Self::has_dependency(&all_tasks[k], &failed_task.id) {
                dep = Some(k);
            } else {
                k = k + 1;
            }
        }
        proof {
            let ts = all_tasks@;
            let id = failed_task.id;
            match dep {
                Some(d) => {
                    let c = choose|c: int| 0 <= c < ts.len() && depends_on(ts[c], id) && forall|m: int| 0 <= m < c ==> !depends_on(ts[m], id);
                    assert(c == d as int) by {
                        if c < d {
                        } else if c > d {
                        }
                    }
                    assert(first_dependent(ts, id) == Some(d as int));
                },
                None => {
                    assert(first_dependent(ts, id) is None);
                },
            }
        }
        if let Some(d) = dep {
            actions.push(ContingencyAction::Reschedule {
                task_id: all_tasks[d].id.clone(),
                reason: concat2("Dependent task blocked by failure of ", failed_task.id.0.as_str()),
                delay_seconds: 1200,
                new_priority: None,
            });
        }
        let ghost after_dependent = actions@;

        let notify = severity == SeverityLevel::High || severity == SeverityLevel::Critical;
        if notify {
            let mut summary = concat2("Task ", failed_task.id.0.as_str());
            summary.append(" failed with severity ");
            summary.append(severity.name().as_str());
            actions.push(ContingencyAction::NotifyMissionControl { severity, summary, data_bundle: Vec::new() });
        }
        proof {
            assert(actions@.len() >= after_dependent.len());
            assert(forall|m: int| 0 <= m < after_dependent.len() ==> actions@[m] == after_dependent[m]);
            assert(forall|m: int| 0 <= m < after_redundancy.len() ==> after_dependent[m] == after_redundancy[m]);
        }

        let mut plan_id = concat2("contingency-", failed_task.id.0.as_str());
        plan_id.append("-");
        plan_id.append(stamp);

        let mut affected: Vec<TaskId> = Vec::new();
        affected.push(failed_task.id.clone());
        assert(affected@ =~= seq![failed_task.id]);

        let crew_risk_permille: u16 = match severity {
            SeverityLevel::Critical => 900,
            SeverityLevel::High => 600,
            SeverityLevel::Moderate => 300,
            SeverityLevel::Low => 0,
        };
        let mission_continuity_pct: u8 = match severity {
            SeverityLevel::Critical => 70,
            SeverityLevel::High => 85,
            SeverityLevel::Moderate => 95,
            SeverityLevel::Low => 99,
        };

        Some(ContingencyPlan {
            plan_id,
            triggered_by: AnomalyType::TaskFailure { task_id: failed_task.id.clone(), error_code: "TASK_FAILURE".to_string() },
            severity,
            affected_tasks: affected,
            actions,
            estimated_impact: ImpactAssessment {
                scientific_value_loss_permille: if failed_task.category == TaskCategory::Science { 300 } else { 100 },
                energy_impact_mwh: 5000,
                time_impact_minutes: 10,
                crew_risk_permille,
                mission_continuity_pct,
            },
            created_at: now,
            expires_at: now + 3_600_000,
        })
    }

    /// Whether `t` critically needs `resource`.
    fn needs_critically(t: &MarsTask, resource: &str) -> (r: bool)
        ensures
            r == critically_needs(*t, resource@),
    {
        let mut k: usize = 0;
        while k < t.required_resources.len()
            invariant
                k <= t.required_resources@.len(),
                forall|m: int| 0 <= m < k ==> !(t.required_resources@[m].resource_type@ == resource@
                    && t.required_resources@[m].critical),
            decreases t.required_resources@.len() - k,
        {
            if str_eq(t.required_resources[k].resource_type.as_str(), resource) && t.required_resources[k].critical {
                return true;
            }
            k = k + 1;
        }
        false
    }

    /// The plan for the loss of `lost_amount_milli` thousandths of a
    /// resource at time `now`, with `stamp` ending the plan's identifier.
    pub fn plan_resource_loss_at(
        &self,
        resource: &str,
        lost_amount_milli: i64,
        all_tasks: &[MarsTask],
        now: i64,
        stamp: &str,
    ) -> (p: Option<ContingencyPlan>)
        requires
            in_clock_range(now),
        ensures
            p matches Some(plan) && loss_plan_matches(resource@, lost_amount_milli, all_tasks@, now, stamp@, plan),
    {
        let ghost ts = all_tasks@;
        let ghost pred = needs_pred(resource@);
        let mut affected: Vec<TaskId> = Vec::new();
        let mut systems: Vec<String> = Vec::new();
        let mut k: usize = 0;
        proof {
            reveal_with_fuel(Seq::<_>::filter, 1);
            assert(ts.take(0) =~= Seq::<MarsTask>::empty());
        }
        while k < all_tasks.len()
            invariant
                k <= ts.len(),
                ts == all_tasks@,
                pred == needs_pred(resource@),
                affected@ == ts.take(k as int).filter(pred).map_values(|t: MarsTask| t.id),
                systems@.map_values(|s: String| s@) == ts.take(k as int).filter(pred).map_values(|t: MarsTask| t.id.0@),
            decreases ts.len() - k,
        {
            let t = &all_tasks[k];
            let needed = Self::needs_critically(t, resource);
            let ghost before_a = affected@;
            let ghost before_s = systems@;
            if needed {
                affected.push(t.id.clone());
                systems.push(t.id.0.clone());
            }
            proof {
                reveal_with_fuel(Seq::<_>::filter, 1);
                let pre = ts.take(k + 1);
                assert(pre.drop_last() =~= ts.take(k as int));
                assert(pre.last() == *t);
                assert(pred(*t) == needed);
                if needed {
                    assert(affected@ =~= before_a.push(t.id));
                    assert(systems@.map_values(|s: String| s@) =~= before_s.map_values(|s: String| s@).push(t.id.0@));
                }
                assert(affected@ =~= pre.filter(pred).map_values(|t: MarsTask| t.id));
                assert(systems@.map_values(|s: String| s@) =~= pre.filter(pred).map_values(|t: MarsTask| t.id.0@));
            }
            k = k + 1;
        }
        assert(ts.take(ts.len() as int) =~= ts);
        let ghost aff = needing(ts, resource@);
        assert(affected@.len() == aff.len());

        let severity = if affected.len() > 3 {
            SeverityLevel::High
        } else if affected.len() == 0 {
            SeverityLevel::Low
        } else {
            SeverityLevel::Moderate
        };

        let mut j: usize = 0;
        let mut donor: Option<usize> = None;
        while j < all_tasks.len() && donor.is_none()
            invariant
                j <= ts.len(),
                ts == all_tasks@,
                donor matches Some(d) ==> (d < ts.len() && is_non_critical(ts[d as int])
                    && forall|m: int| 0 <= m < d ==> !is_non_critical(ts[m])),
                donor is None ==> forall|m: int| 0 <= m < j ==> !is_non_critical(ts[m]),
            decreases ts.len() - j + (if donor is None { 1int } else { 0 }),
        {
            if all_tasks[j].category == TaskCategory::Science || all_tasks[j].category == TaskCategory::Navigation {
                donor = Some(j);
            } else {
                j = j + 1;
            }
        }
        proof {
            match donor {
                Some(d) => {
                    let c = choose|c: int| 0 <= c < ts.len() && is_non_critical(ts[c]) && forall|m: int| 0 <= m < c ==> !is_non_critical(ts[m]);
                    assert(c == d as int) by {
                        if c < d {
                        } else if c > d {
                        }
                    }
                },
                None => {
                    assert(first_non_critical(ts) is None);
                },
            }
        }

        let mut actions: Vec<ContingencyAction> = Vec::new();
        let realloc = affected.len() > 0 && donor.is_some();
        if realloc {
            let d = donor.unwrap();
            let mut resources: Vec<String> = Vec::new();
            resources.push(resource.to_owned());
            actions.push(ContingencyAction::ReallocateResources {
                from_task: all_tasks[d].id.clone(),
                to_task: affected[0].clone(),
                resources,
            });
        }
        let ghost after_realloc = actions@;
        let safe = match severity {
            SeverityLevel::High => true,
            SeverityLevel::Critical => true,
            _ => false,
        };
        if safe {
            let mut reason = concat2("Critical resource loss: ", resource);
            reason.append(" (");
            reason.append(milli_to_text(lost_amount_milli).as_str());
            reason.append(" lost)");
            actions.push(ContingencyAction::EnterSafeMode { reason, affected_systems: systems });
        }
        proof {
            assert(forall|m: int| 0 <= m < after_realloc.len() ==> actions@[m] == after_realloc[m]);
        }

        let plan_id = concat2("contingency-resource-", stamp);
        let crew_risk_permille: u16 = match severity {
            SeverityLevel::Critical => 800,
            _ => 100,
        };
        let mission_continuity_pct: u8 = match severity {
            SeverityLevel::Critical => 60,
            _ => 90,
        };
        Some(ContingencyPlan {
            plan_id,
            triggered_by: AnomalyType::ResourceLoss { resource: resource.to_owned(), lost_amount_milli },
            severity,
            affected_tasks: affected,
            actions,
            estimated_impact: ImpactAssessment {
                scientific_value_loss_permille: 200,
                energy_impact_mwh: 0,
                time_impact_minutes: 30,
                crew_risk_permille,
                mission_continuity_pct,
            },
            created_at: now,
            expires_at: now + 1_800_000,
        })
    }

    /// The plan for the loss of a resource, made now.
    pub fn plan_resource_loss(&self, resource: &str, lost_amount_milli: i64, all_tasks: &[MarsTask]) -> (p: Option<ContingencyPlan>)
        ensures
            p matches Some(plan) && exists|now: i64, stamp: Seq<char>|
                in_clock_range(now) && loss_plan_matches(resource@, lost_amount_milli, all_tasks@, now, stamp, plan),
    {
        let stamp = now_stamp();
        let now = now_millis();
        self.plan_resource_loss_at(resource, lost_amount_milli, all_tasks, now, stamp.as_str())
    }

    /// The plan for a failed task, made now.
    pub fn plan(&self, failed_task: &MarsTask, all_tasks: &[MarsTask]) -> (p: Option<ContingencyPlan>)
        ensures
            p matches Some(plan) && exists|now: i64, stamp: Seq<char>|
                in_clock_range(now) && failure_plan_matches(*failed_task, all_tasks@, now, stamp, plan),
    {
        let stamp = now_stamp();
        let now = now_millis();
        self.plan_at(failed_task, all_tasks, now, stamp.as_str())
    }
}

/// A quantity in thousandths as `f64`'s `Display` writes it.
pub fn milli_to_text(m: i64) -> (s: String)
    ensures
        s@ == milli_text(m as int),
{
    let neg = m < 0;
    let a: u64 = if neg { (-(m as i128)) as u64 } else { m as u64 };
    let whole = a / 1000;
    let frac = a % 1000;
    let mut s = if neg { "-".to_string() } else { String::new() };
    s.append(u64_to_decimal(whole).as_str());
    if frac == 0 {
    } else if frac % 100 == 0 {
        s.append(".");
        s.append(u64_to_decimal(frac / 100).as_str());
    } else if frac % 10 == 0 {
        s.append(".");
        if frac < 100 {
            s.append("0");
        }
        s.append(u64_to_decimal(frac / 10).as_str());
    } else {
        s.append(".");
        if frac < 10 {
            s.append("00");
        } else if frac < 100 {
            s.append("0");
        }
        s.append(u64_to_decimal(frac).as_str());
    }
    proof {
        reveal_strlit("-");
        reveal_strlit(".");
        reveal_strlit("0");
        reveal_strlit("00");
        assert(s@ =~= milli_text(m as int));
    }
    s
}

} // verus!
