//! Mars tasks as the planners see them. Times are Unix milliseconds;
//! scientific value and resource amounts are in thousandths.

use vstd::prelude::*;

verus! {

/// Task identifier.
#[derive(Debug, PartialEq, Eq, Hash)]
pub struct TaskId(pub String);

impl Clone for TaskId {
    fn clone(&self) -> (r: Self)
        ensures
            r == *self,
    {
        TaskId(self.0.clone())
    }
}

/// Category of a task.
#[derive(Debug, Clone, Copy, PartialEq, Eq, Hash, Structural)]
pub enum TaskCategory {
    Science,
    Navigation,
    Maintenance,
    Communication,
    LifeSupport,
    Emergency,
}

/// Status of a task.
#[derive(Debug, Clone, Copy, PartialEq, Eq, Structural)]
pub enum TaskStatus {
    Queued,
    Scheduled,
    InProgress,
    Completed,
    Failed,
}

/// A resource a task needs.
#[derive(Debug)]
pub struct ResourceRequirement {
    pub resource_type: String,
    /// Amount in thousandths of `unit`.
    pub amount_milli: u64,
    pub unit: String,
    pub critical: bool,
}

impl Clone for ResourceRequirement {
    fn clone(&self) -> (r: Self)
        ensures
            r == *self,
    {
        ResourceRequirement {
            resource_type: self.resource_type.clone(),
            amount_milli: self.amount_milli,
            unit: self.unit.clone(),
            critical: self.critical,
        }
    }
}

/// A task of the Mars mission.
#[derive(Debug)]
pub struct MarsTask {
    pub id: TaskId,
    pub name: String,
    pub category: TaskCategory,
    pub priority: u16,
    pub deadline: Option<i64>,
    pub estimated_duration_secs: u32,
    pub dependencies: Vec<TaskId>,
    pub required_resources: Vec<ResourceRequirement>,
    pub executing_node: Option<String>,
    pub status: TaskStatus,
    pub created_at: i64,
    /// Scientific value in thousandths (0 to 1000).
    pub scientific_value_milli: u16,
}

impl TaskCategory {
    /// The category's name.
    pub open spec fn spec_name(self) -> Seq<char> {
        match self {
            TaskCategory::Science => "science"@,
            TaskCategory::Navigation => "navigation"@,
            TaskCategory::Maintenance => "maintenance"@,
            TaskCategory::Communication => "communication"@,
            TaskCategory::LifeSupport => "life_support"@,
            TaskCategory::Emergency => "emergency"@,
        }
    }

    /// The category's name.
    pub fn category_name(&self) -> (s: String)
        ensures
            s@ == self.spec_name(),
    {
        match self {
            TaskCategory::Science => "science".to_string(),
            TaskCategory::Navigation => "navigation".to_string(),
            TaskCategory::Maintenance => "maintenance".to_string(),
            TaskCategory::Communication => "communication".to_string(),
            TaskCategory::LifeSupport => "life_support".to_string(),
            TaskCategory::Emergency => "emergency".to_string(),
        }
    }
}

/// The resource types a task requires, in order.
pub open spec fn resource_types(t: MarsTask) -> Seq<Seq<char>> {
    t.required_resources@.map_values(|r: ResourceRequirement| r.resource_type@)
}

} // verus!
