//! Detection and resolution of conflicts between simultaneous tasks:
//! shared resources and long overlapping executions.

use vstd::prelude::*;
use crate::tasks::{MarsTask, TaskId, TaskStatus, ResourceRequirement, resource_types};
use crate::text::{spec_decimal, u64_to_decimal};

verus! {

/// Kind of conflict detected.
#[derive(Debug)]
pub enum ConflictType {
    /// Two tasks need the same resource at the same time; `demand` counts
    /// the shared resources, `supply` is the unit capacity assumed.
    ResourceConflict { resource: String, tasks: Vec<TaskId>, demand: u64, supply: u64 },
    /// Tasks overlap in time.
    TemporalOverlap { tasks: Vec<TaskId>, overlap_duration_secs: u32 },
    /// Tasks in the same physical area.
    SpatialConflict { tasks: Vec<TaskId>, location: String },
    /// Circular dependency.
    CircularDependency { cycle: Vec<TaskId> },
}

/// Resolution proposed for a conflict.
#[derive(Debug)]
pub enum ResolutionStrategy {
    /// Run the tasks one after the other.
    Sequentialize { keep_order: Vec<TaskId>, delay_task: TaskId, delay_by_secs: u32 },
    /// Reduce the resources of a task; `quality_impact_pct` is the share
    /// of quality lost, in percent.
    ReduceScope { task_id: TaskId, reduced_resources: Vec<String>, quality_impact_pct: u8 },
    /// Move a task to a later window (Unix milliseconds).
    Reschedule { task_id: TaskId, new_window_start: i64, new_window_end: i64 },
    /// Cancel the lower-priority task.
    Cancel { task_id: TaskId, reason: String },
    /// Reassign resources.
    Repartition { tasks: Vec<TaskId>, new_allocation: Vec<(TaskId, Vec<ResourceRequirement>)> },
}

/// Resolution of one conflict; `priority_loss_permille` is the total loss
/// of priority, in thousandths.
#[derive(Debug)]
pub struct ConflictResolution {
    pub conflict_type: ConflictType,
    pub strategy: ResolutionStrategy,
    pub affected_tasks: Vec<TaskId>,
    pub priority_loss_permille: u16,
    pub justification: String,
}

/// The conflict resolver.
pub struct ConflictResolver {
    max_conflicts_per_cycle: usize,
}

/// The resource types of `a` (in `a`'s order) that `b` also requires.
pub open spec fn shared_types(a: MarsTask, b: MarsTask) -> Seq<Seq<char>> {
    resource_types(a).filter(required_by(b))
}

/// Whether a task requires a resource type.
pub open spec fn required_by(b: MarsTask) -> spec_fn(Seq<char>) -> bool {
    |t: Seq<char>| resource_types(b).contains(t)
}

/// A detected conflict: whether it is a resource conflict (else a
/// temporal one), and the positions of the two tasks.
pub type Finding = (bool, int, int);

/// Resource conflicts among the pairs from (i, j) on, in the order
/// (0,1), (0,2), ..., (1,2), ...
pub open spec fn resource_findings(ts: Seq<MarsTask>, i: int, j: int) -> Seq<Finding>
    decreases (ts.len() - i) as nat, (ts.len() - j) as nat,
{
    if i >= ts.len() || i < 0 {
        Seq::empty()
    } else if j >= ts.len() {
        resource_findings(ts, i + 1, i + 2)
    } else if j <= i {
        Seq::empty()
    } else {
        (if shared_types(ts[i], ts[j]).len() > 0 {
            seq![(true, i, j)]
        } else {
            Seq::empty()
        }) + resource_findings(ts, i, j + 1)
    }
}

/// Two in-progress tasks whose durations add up to more than an hour.
pub open spec fn overlap(a: MarsTask, b: MarsTask) -> bool {
    a.estimated_duration_secs + b.estimated_duration_secs > 3600 && a.status == TaskStatus::InProgress
        && b.status == TaskStatus::InProgress
}

/// Temporal conflicts among the pairs from (i, j) on, in pair order.
pub open spec fn temporal_findings(ts: Seq<MarsTask>, i: int, j: int) -> Seq<Finding>
    decreases (ts.len() - i) as nat, (ts.len() - j) as nat,
{
    if i >= ts.len() || i < 0 {
        Seq::empty()
    } else if j >= ts.len() {
        temporal_findings(ts, i + 1, i + 2)
    } else if j <= i {
        Seq::empty()
    } else {
        (if overlap(ts[i], ts[j]) {
            seq![(false, i, j)]
        } else {
            Seq::empty()
        }) + temporal_findings(ts, i, j + 1)
    }
}

/// All conflicts: resource conflicts first, then temporal ones.
pub open spec fn findings(ts: Seq<MarsTask>) -> Seq<Finding> {
    resource_findings(ts, 0, 1) + temporal_findings(ts, 0, 1)
}

/// The conflict type reported for a finding.
pub open spec fn conflict_matches(ts: Seq<MarsTask>, f: Finding, c: ConflictType) -> bool {
    let a = ts[f.1];
    let b = ts[f.2];
    if f.0 {
        c matches ConflictType::ResourceConflict { resource, tasks, demand, supply } && resource@ == shared_types(a, b)[0]
            && tasks@ == seq![a.id, b.id] && demand == shared_types(a, b).len() && supply == 1
    } else {
        c matches ConflictType::TemporalOverlap { tasks, overlap_duration_secs } && tasks@ == seq![a.id, b.id]
            && overlap_duration_secs == b.estimated_duration_secs
    }
}

/// "Task <x> (priority <p>) takes precedence over <y> (priority <q>)".
pub open spec fn precedence_text(x: MarsTask, y: MarsTask) -> Seq<char> {
    "Task "@ + x.id.0@ + " (priority "@ + spec_decimal(x.priority as nat) + ") takes precedence over "@ + y.id.0@
        + " (priority "@ + spec_decimal(y.priority as nat) + ")"@
}

/// The resolution of a finding: the higher-priority task goes first and
/// the other waits for its duration; with equal priorities the newer
/// task (the second one unless the first was created later) has its
/// scope reduced.
pub open spec fn resolution_matches(ts: Seq<MarsTask>, f: Finding, r: ConflictResolution) -> bool {
    let a = ts[f.1];
    let b = ts[f.2];
    &&& conflict_matches(ts, f, r.conflict_type)
    &&& r.affected_tasks@ == seq![a.id, b.id]
    &&& if a.priority > b.priority {
        &&& r.strategy matches ResolutionStrategy::Sequentialize { keep_order, delay_task, delay_by_secs }
            && keep_order@ == seq![a.id, b.id] && delay_task == b.id && delay_by_secs == a.estimated_duration_secs
        &&& r.priority_loss_permille == 0
        &&& r.justification@ == precedence_text(a, b)
    } else if b.priority > a.priority {
        &&& r.strategy matches ResolutionStrategy::Sequentialize { keep_order, delay_task, delay_by_secs }
            && keep_order@ == seq![b.id, a.id] && delay_task == a.id && delay_by_secs == b.estimated_duration_secs
        &&& r.priority_loss_permille == 0
        &&& r.justification@ == precedence_text(b, a)
    } else {
        let newer = if a.created_at > b.created_at { a } else { b };
        &&& r.strategy matches ResolutionStrategy::ReduceScope { task_id, reduced_resources, quality_impact_pct }
            && task_id == newer.id && reduced_resources@.map_values(|s: String| s@) == resource_types(newer)
            && quality_impact_pct == 30
        &&& r.priority_loss_permille == 150
        &&& r.justification@ == "Equal priority, reducing scope of newer task "@ + newer.id.0@
    }
}

/// The higher-priority task is never the one delayed: when the two tasks
/// of a finding have different priorities, the resolution runs the
/// higher one first and delays the other, at no loss of priority.
pub proof fn lemma_higher_priority_never_delayed(ts: Seq<MarsTask>, f: Finding, r: ConflictResolution)
    requires
        resolution_matches(ts, f, r),
        ts[f.1].priority != ts[f.2].priority,
    ensures
        ({
            let (hi, lo) = if ts[f.1].priority > ts[f.2].priority { (ts[f.1], ts[f.2]) } else { (ts[f.2], ts[f.1]) };
            &&& r.strategy matches ResolutionStrategy::Sequentialize { keep_order, delay_task, delay_by_secs }
                && keep_order@[0] == hi.id && delay_task == lo.id && delay_by_secs == hi.estimated_duration_secs
            &&& r.priority_loss_permille == 0
        }),
{
}

/// The durations of no two different tasks overflow a `u32` when added.
pub open spec fn durations_fit(ts: Seq<MarsTask>) -> bool {
    forall|i: int, j: int|
        0 <= i < ts.len() && 0 <= j < ts.len() && i != j ==> ts[i].estimated_duration_secs
            + ts[j].estimated_duration_secs <= u32::MAX
}

proof fn lemma_findings_bounded(ts: Seq<MarsTask>, i: int, j: int)
    ensures
        forall|k: int| 0 <= k < resource_findings(ts, i, j).len() ==> {
            let f = #[trigger] resource_findings(ts, i, j)[k];
            0 <= f.1 < f.2 < ts.len() && f.0 && shared_types(ts[f.1], ts[f.2]).len() > 0
        },
        forall|k: int| 0 <= k < temporal_findings(ts, i, j).len() ==> {
            let f = #[trigger] temporal_findings(ts, i, j)[k];
            0 <= f.1 < f.2 < ts.len() && !f.0
        },
    decreases (ts.len() - i) as nat, (ts.len() - j) as nat,
{
    if i >= ts.len() || i < 0 {
    } else if j >= ts.len() {
        lemma_findings_bounded(ts, i + 1, i + 2);
        assert(resource_findings(ts, i, j) == resource_findings(ts, i + 1, i + 2));
        assert(temporal_findings(ts, i, j) == temporal_findings(ts, i + 1, i + 2));
    } else if j <= i {
    } else {
        lemma_findings_bounded(ts, i, j + 1);
        let rh: Seq<Finding> = if shared_types(ts[i], ts[j]).len() > 0 {
            seq![(true, i, j)]
        } else {
            Seq::empty()
        };
        let rf = resource_findings(ts, i, j);
        let rr = resource_findings(ts, i, j + 1);
        assert(rf == rh + rr);
        assert forall|k: int| 0 <= k < rf.len() implies {
            let f = #[trigger] rf[k];
            0 <= f.1 < f.2 < ts.len() && f.0 && shared_types(ts[f.1], ts[f.2]).len() > 0
        } by {
            if k >= rh.len() {
                assert(rf[k] == rr[k - rh.len()]);
            } else {
                assert(rf[k] == rh[k]);
            }
        }
        let th: Seq<Finding> = if overlap(ts[i], ts[j]) {
            seq![(false, i, j)]
        } else {
            Seq::empty()
        };
        let tf = temporal_findings(ts, i, j);
        let tr = temporal_findings(ts, i, j + 1);
        assert(tf == th + tr);
        assert forall|k: int| 0 <= k < tf.len() implies {
            let f = #[trigger] tf[k];
            0 <= f.1 < f.2 < ts.len() && !f.0
        } by {
            if k >= th.len() {
                assert(tf[k] == tr[k - th.len()]);
            } else {
                assert(tf[k] == th[k]);
            }
        }
    }
}

/// Every resource finding concerns two tasks that share a resource, and
/// every finding concerns two distinct listed tasks, the first before
/// the second.
proof fn lemma_findings_well_formed(ts: Seq<MarsTask>)
    ensures
        forall|k: int| 0 <= k < findings(ts).len() ==> {
            let f = #[trigger] findings(ts)[k];
            0 <= f.1 < f.2 < ts.len() && (f.0 ==> shared_types(ts[f.1], ts[f.2]).len() > 0)
        },
{
    lemma_findings_bounded(ts, 0, 1);
    let rf = resource_findings(ts, 0, 1);
    let tf = temporal_findings(ts, 0, 1);
    assert forall|k: int| 0 <= k < findings(ts).len() implies {
        let f = #[trigger] findings(ts)[k];
        0 <= f.1 < f.2 < ts.len() && (f.0 ==> shared_types(ts[f.1], ts[f.2]).len() > 0)
    } by {
        if k < rf.len() {
            assert(findings(ts)[k] == rf[k]);
        } else {
            assert(findings(ts)[k] == tf[k - rf.len()]);
        }
    }
}

impl ConflictResolver {
    /// The most conflicts handled per cycle.
    pub closed spec fn max_conflicts(&self) -> usize {
        self.max_conflicts_per_cycle
    }

    /// A resolver that handles up to ten conflicts per cycle.
    pub fn new() -> (r: Self)
        ensures
            r.max_conflicts() == 10,
    {
        ConflictResolver { max_conflicts_per_cycle: 10 }
    }

    /// A resolver that handles up to `max_conflicts` conflicts per cycle.
    pub fn with_limit(max_conflicts: usize) -> (r: Self)
        ensures
            r.max_conflicts() == max_conflicts,
    {
        ConflictResolver { max_conflicts_per_cycle: max_conflicts }
    }

    /// Detects the conflicts among the tasks and resolves the first
    /// `max_conflicts()` of them, in detection order.
    pub fn resolve(&self, tasks: &[&MarsTask]) -> (out: Vec<ConflictResolution>)
        requires
            durations_fit(tasks@.map_values(|t: &MarsTask| *t)),
        ensures
            ({
                let ts = tasks@.map_values(|t: &MarsTask| *t);
                let fs = findings(ts);
                &&& out@.len() == if fs.len() < self.max_conflicts() { fs.len() } else { self.max_conflicts() as nat }
                &&& forall|k: int| 0 <= k < out@.len() ==> resolution_matches(ts, fs[k], #[trigger] out@[k])
            }),
    {
        let ghost ts = tasks@.map_values(|t: &MarsTask| *t);
        proof {
            lemma_findings_well_formed(ts);
        }
        let found = self.detect_conflicts(tasks);
        let limit = if found.len() < self.max_conflicts_per_cycle { found.len() } else { self.max_conflicts_per_cycle };
        let mut out: Vec<ConflictResolution> = Vec::new();
        let mut k: usize = 0;
        while k < limit
            invariant
                ts == tasks@.map_values(|t: &MarsTask| *t),
                limit <= found@.len(),
                found@.len() == findings(ts).len(),
                forall|m: int| 0 <= m < found@.len() ==> {
                    let f = #[trigger] found@[m];
                    (f.0, f.1 as int, f.2 as int) == findings(ts)[m] && f.1 < f.2 < tasks@.len()
                },
                k <= limit,
                out@.len() == k,
                forall|m: int| 0 <= m < k ==> resolution_matches(ts, findings(ts)[m], #[trigger] out@[m]),
                forall|m: int| 0 <= m < findings(ts).len() ==> {
                    let g = #[trigger] findings(ts)[m];
                    0 <= g.1 < g.2 < ts.len() && (g.0 ==> shared_types(ts[g.1], ts[g.2]).len() > 0)
                },
            decreases limit - k,
        {
            let f = found[k];
            proof {
                let g = findings(ts)[k as int];
                assert(g == (f.0, f.1 as int, f.2 as int));
                assert(ts[f.1 as int] == *tasks@[f.1 as int]);
                assert(ts[f.2 as int] == *tasks@[f.2 as int]);
                assert(f.0 ==> shared_types(ts[g.1], ts[g.2]).len() > 0);
            }
            let r = self.resolve_conflict(tasks, f.0, f.1, f.2);
            out.push(r);
            k = k + 1;
        }
        out
    }

    /// All conflicts among the tasks, as (resource conflict?, first, second).
    fn detect_conflicts(&self, tasks: &[&MarsTask]) -> (found: Vec<(bool, usize, usize)>)
        requires
            durations_fit(tasks@.map_values(|t: &MarsTask| *t)),
        ensures
            ({
                let ts = tasks@.map_values(|t: &MarsTask| *t);
                &&& found@.len() == findings(ts).len()
                &&& forall|m: int| 0 <= m < found@.len() ==> {
                    let f = #[trigger] found@[m];
                    (f.0, f.1 as int, f.2 as int) == findings(ts)[m] && f.1 < f.2 < tasks@.len()
                }
            }),
    {
        let ghost ts = tasks@.map_values(|t: &MarsTask| *t);
        let n = tasks.len();
        let mut found: Vec<(bool, usize, usize)> = Vec::new();
        proof {
            lemma_findings_bounded(ts, 0, 1);
        }
        // Resource conflicts.
        let mut i: usize = 0;
        while i < n
            invariant
                n == tasks@.len(),
                ts == tasks@.map_values(|t: &MarsTask| *t),
                i <= n,
                forall|m: int| 0 <= m < found@.len() ==> {
                    let f = #[trigger] found@[m];
                    f.1 < f.2 < n
                },
                found@.map_values(|f: (bool, usize, usize)| (f.0, f.1 as int, f.2 as int)) + resource_findings(ts, i as int, i + 1)
                    == resource_findings(ts, 0, 1),
            decreases n - i,
        {
            let mut j: usize = i + 1;
            while j < n
                invariant
                    n == tasks@.len(),
                    ts == tasks@.map_values(|t: &MarsTask| *t),
                    i < n,
                    i < j <= n,
                    forall|m: int| 0 <= m < found@.len() ==> {
                        let f = #[trigger] found@[m];
                        f.1 < f.2 < n
                    },
                    found@.map_values(|f: (bool, usize, usize)| (f.0, f.1 as int, f.2 as int)) + resource_findings(ts, i as int, j as int)
                        == resource_findings(ts, 0, 1),
                decreases n - j,
            {
                let shared = self.find_shared_resources(tasks[i], tasks[j]);
                let ghost before = found@;
                if shared.len() > 0 {
                    found.push((true, i, j));
                }
                proof {
                    let mapf = |f: (bool, usize, usize)| (f.0, f.1 as int, f.2 as int);
                    assert(found@.map_values(mapf) =~= before.map_values(mapf) + (if shared_types(ts[i as int], ts[j as int]).len() > 0 {
                        seq![(true, i as int, j as int)]
                    } else {
                        Seq::<Finding>::empty()
                    }));
                }
                j = j + 1;
            }
            i = i + 1;
        }
        let ghost n_res = found@.len();
        proof {
            assert(resource_findings(ts, n as int, n + 1) == Seq::<Finding>::empty());
        }
        // Temporal conflicts.
        let mut i: usize = 0;
        while i < n
            invariant
                n == tasks@.len(),
                ts == tasks@.map_values(|t: &MarsTask| *t),
                durations_fit(ts),
                i <= n,
                forall|m: int| 0 <= m < found@.len() ==> {
                    let f = #[trigger] found@[m];
                    f.1 < f.2 < n
                },
                found@.map_values(|f: (bool, usize, usize)| (f.0, f.1 as int, f.2 as int)) + temporal_findings(ts, i as int, i + 1)
                    == findings(ts),
            decreases n - i,
        {
            let mut j: usize = i + 1;
            while j < n
                invariant
                    n == tasks@.len(),
                    ts == tasks@.map_values(|t: &MarsTask| *t),
                    durations_fit(ts),
                    i < n,
                    i < j <= n,
                    forall|m: int| 0 <= m < found@.len() ==> {
                        let f = #[trigger] found@[m];
                        f.1 < f.2 < n
                    },
                    found@.map_values(|f: (bool, usize, usize)| (f.0, f.1 as int, f.2 as int)) + temporal_findings(ts, i as int, j as int)
                        == findings(ts),
                decreases n - j,
            {
                let ghost before = found@;
                assert(ts[i as int] == *tasks@[i as int]);
                assert(ts[j as int] == *tasks@[j as int]);
                if tasks[i].estimated_duration_secs + tasks[j].estimated_duration_secs > 3600
                    && tasks[i].status == TaskStatus::InProgress && tasks[j].status == TaskStatus::InProgress {
                    found.push((false, i, j));
                }
                proof {
                    let mapf = |f: (bool, usize, usize)| (f.0, f.1 as int, f.2 as int);
                    assert(found@.map_values(mapf) =~= before.map_values(mapf) + (if overlap(ts[i as int], ts[j as int]) {
                        seq![(false, i as int, j as int)]
                    } else {
                        Seq::<Finding>::empty()
                    }));
                }
                j = j + 1;
            }
            i = i + 1;
        }
        proof {
            assert(temporal_findings(ts, n as int, n + 1) == Seq::<Finding>::empty());
            let mapf = |f: (bool, usize, usize)| (f.0, f.1 as int, f.2 as int);
            assert(found@.map_values(mapf) =~= findings(ts));
            assert forall|m: int| 0 <= m < found@.len() implies {
                let f = #[trigger] found@[m];
                (f.0, f.1 as int, f.2 as int) == findings(ts)[m]
            } by {
                assert(found@.map_values(mapf)[m] == mapf(found@[m]));
            }
        }
        found
    }

    /// The resource types of `a` that `b` also requires, in `a`'s order.
    fn find_shared_resources(&self, a: &MarsTask, b: &MarsTask) -> (shared: Vec<String>)
        ensures
            shared@.map_values(|s: String| s@) == shared_types(*a, *b),
    {
        let ghost pred = required_by(*b);
        let mut shared: Vec<String> = Vec::new();
        proof {
            reveal_with_fuel(Seq::<_>::filter, 1);
            assert(resource_types(*a).take(0) =~= Seq::<Seq<char>>::empty());
            assert(shared@.map_values(|s: String| s@) =~= Seq::<Seq<char>>::empty());
        }
        let mut i: usize = 0;
        while i < a.required_resources.len()
            invariant
                i <= a.required_resources@.len(),
                pred == required_by(*b),
                shared@.map_values(|s: String| s@) == resource_types(*a).take(i as int).filter(pred),
            decreases a.required_resources@.len() - i,
        {
            let t = &a.required_resources[i].resource_type;
            let mut present = false;
            let mut j: usize = 0;
            while j < b.required_resources.len()
                invariant
                    j <= b.required_resources@.len(),
                    present == exists|m: int| 0 <= m < j && resource_types(*b)[m] == t@,
                decreases b.required_resources@.len() - j,
            {
                assert(resource_types(*b)[j as int] == b.required_resources@[j as int].resource_type@);
                if b.required_resources[j].resource_type == *t {
                    present = true;
                }
                j = j + 1;
            }
            proof {
                assert(resource_types(*a)[i as int] == t@);
                assert(resource_types(*a).take(i + 1).drop_last() =~= resource_types(*a).take(i as int));
                assert(resource_types(*a).take(i + 1).last() == t@);
                if present {
                    let m = choose|m: int| 0 <= m < b.required_resources@.len() && resource_types(*b)[m] == t@;
                    assert(resource_types(*b).contains(t@));
                } else {
                    assert(!resource_types(*b).contains(t@));
                }
                assert(pred(t@) == present);
            }
            let ghost before = shared@;
            if present {
                shared.push(t.clone());
            }
            proof {
                if present {
                    assert(shared@.map_values(|s: String| s@) =~= before.map_values(|s: String| s@).push(t@));
                } else {
                    assert(shared@ == before);
                }
                let pre = resource_types(*a).take(i + 1);
                assert(pre.len() > 0);
                reveal_with_fuel(Seq::<_>::filter, 1);
                assert(pre.filter(pred) == (if pred(pre.last()) {
                    pre.drop_last().filter(pred).push(pre.last())
                } else {
                    pre.drop_last().filter(pred)
                }));
                assert(shared@.map_values(|s: String| s@) =~= resource_types(*a).take(i + 1).filter(pred));
            }
            i = i + 1;
        }
        assert(resource_types(*a).take(a.required_resources@.len() as int) =~= resource_types(*a));
        shared
    }

    /// The conflict type of a detected conflict.
    fn make_conflict_type(&self, tasks: &[&MarsTask], resource: bool, i: usize, j: usize) -> (c: ConflictType)
        requires
            i < j < tasks@.len(),
            resource ==> shared_types(*tasks@[i as int], *tasks@[j as int]).len() > 0,
        ensures
            conflict_matches(tasks@.map_values(|t: &MarsTask| *t), (resource, i as int, j as int), c),
    {
        let ghost ts = tasks@.map_values(|t: &MarsTask| *t);
        assert(ts[i as int] == *tasks@[i as int]);
        assert(ts[j as int] == *tasks@[j as int]);
        let mut ids: Vec<TaskId> = Vec::new();
        ids.push(tasks[i].id.clone());
        ids.push(tasks[j].id.clone());
        assert(ids@ =~= seq![ts[i as int].id, ts[j as int].id]);
        if resource {
            let shared = self.find_shared_resources(tasks[i], tasks[j]);
            let count = shared.len() as u64;
            assert(shared@.map_values(|s: String| s@)[0] == shared@[0]@);
            ConflictType::ResourceConflict { resource: shared[0].clone(), tasks: ids, demand: count, supply: 1 }
        } else {
            ConflictType::TemporalOverlap { tasks: ids, overlap_duration_secs: tasks[j].estimated_duration_secs }
        }
    }

    /// "Task <x> (priority <p>) takes precedence over <y> (priority <q>)".
    fn precedence_justification(x: &MarsTask, y: &MarsTask) -> (s: String)
        ensures
            s@ == precedence_text(*x, *y),
    {
        let mut s = "Task ".to_string();
        s.append(x.id.0.as_str());
        s.append(" (priority ");
        s.append(u64_to_decimal(x.priority as u64).as_str());
        s.append(") takes precedence over ");
        s.append(y.id.0.as_str());
        s.append(" (priority ");
        s.append(u64_to_decimal(y.priority as u64).as_str());
        s.append(")");
        s
    }

    /// Resolves one detected conflict.
    fn resolve_conflict(&self, tasks: &[&MarsTask], resource: bool, i: usize, j: usize) -> (r: ConflictResolution)
        requires
            i < j < tasks@.len(),
            resource ==> shared_types(*tasks@[i as int], *tasks@[j as int]).len() > 0,
        ensures
            resolution_matches(tasks@.map_values(|t: &MarsTask| *t), (resource, i as int, j as int), r),
    {
        let ghost ts = tasks@.map_values(|t: &MarsTask| *t);
        let a = tasks[i];
        let b = tasks[j];
        assert(ts[i as int] == *a);
        assert(ts[j as int] == *b);
        let conflict_type = self.make_conflict_type(tasks, resource, i, j);
        let mut affected: Vec<TaskId> = Vec::new();
        affected.push(a.id.clone());
        affected.push(b.id.clone());
        assert(affected@ =~= seq![a.id, b.id]);
        if a.priority > b.priority {
            let mut keep: Vec<TaskId> = Vec::new();
            keep.push(a.id.clone());
            keep.push(b.id.clone());
            assert(keep@ =~= seq![a.id, b.id]);
            ConflictResolution {
                conflict_type,
                strategy: ResolutionStrategy::Sequentialize {
                    keep_order: keep,
                    delay_task: b.id.clone(),
                    delay_by_secs: a.estimated_duration_secs,
                },
                affected_tasks: affected,
                priority_loss_permille: 0,
                justification: Self::precedence_justification(a, b),
            }
        } else if b.priority > a.priority {
            let mut keep: Vec<TaskId> = Vec::new();
            keep.push(b.id.clone());
            keep.push(a.id.clone());
            assert(keep@ =~= seq![b.id, a.id]);
            ConflictResolution {
                conflict_type,
                strategy: ResolutionStrategy::Sequentialize {
                    keep_order: keep,
                    delay_task: a.id.clone(),
                    delay_by_secs: b.estimated_duration_secs,
                },
                affected_tasks: affected,
                priority_loss_permille: 0,
                justification: Self::precedence_justification(b, a),
            }
        } else {
            let newer = if a.created_at > b.created_at { a } else { b };
            let mut reduced: Vec<String> = Vec::new();
            let mut k: usize = 0;
            while k < newer.required_resources.len()
                invariant
                    k <= newer.required_resources@.len(),
                    reduced@.map_values(|s: String| s@) == resource_types(*newer).take(k as int),
                decreases newer.required_resources@.len() - k,
            {
                let ghost before = reduced@;
                let x = newer.required_resources[k].resource_type.clone();
                reduced.push(x);
                proof {
                    assert(resource_types(*newer)[k as int] == x@);
                    assert(reduced@.map_values(|s: String| s@) =~= before.map_values(|s: String| s@).push(x@));
                    assert(resource_types(*newer).take(k + 1) =~= resource_types(*newer).take(k as int).push(x@));
                    assert(reduced@.map_values(|s: String| s@) =~= resource_types(*newer).take(k + 1));
                }
                k = k + 1;
            }
            assert(resource_types(*newer).take(k as int) =~= resource_types(*newer));
            let mut justification = "Equal priority, reducing scope of newer task ".to_string();
            justification.append(newer.id.0.as_str());
            ConflictResolution {
                conflict_type,
                strategy: ResolutionStrategy::ReduceScope {
                    task_id: newer.id.clone(),
                    reduced_resources: reduced,
                    quality_impact_pct: 30,
                },
                affected_tasks: affected,
                priority_loss_permille: 150,
                justification,
            }
        }
    }
}

} // verus!
