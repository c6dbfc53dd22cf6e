//! Ordering of the tasks of a platform: emergencies first, then by a
//! weighted score of urgency, scientific value, category and readiness.
//! Partial scores and weights are in thousandths, so a total is in
//! millionths.

use vstd::prelude::*;
use crate::clock::now_millis;
use crate::tasks::{MarsTask, TaskCategory, TaskId, TaskStatus};

verus! {

/// Weights of the four partial scores, in thousandths.
#[derive(Debug, Clone, Copy, PartialEq, Eq, Structural)]
pub struct PriorityWeights {
    pub urgency_weight_milli: u32,
    pub science_weight_milli: u32,
    pub category_weight_milli: u32,
    pub dependency_weight_milli: u32,
}

impl Default for PriorityWeights {
    /// Urgency 0.30, science 0.25, category 0.30, dependencies 0.15.
    fn default() -> (w: Self)
        ensures
            w == default_weights(),
    {
        PriorityWeights {
            urgency_weight_milli: 300,
            science_weight_milli: 250,
            category_weight_milli: 300,
            dependency_weight_milli: 150,
        }
    }
}

/// The default weights.
pub open spec fn default_weights() -> PriorityWeights {
    PriorityWeights {
        urgency_weight_milli: 300,
        science_weight_milli: 250,
        category_weight_milli: 300,
        dependency_weight_milli: 150,
    }
}

/// The score of a task.
#[derive(Debug)]
pub struct PriorityScore {
    pub task_id: TaskId,
    /// Weighted sum, in millionths.
    pub total_score: u64,
    pub urgency_score: u32,
    pub science_score: u32,
    pub category_score: u32,
    pub dependency_score: u32,
}

/// Minutes in a day.
pub const DAY_MINUTES: i128 = 1440;

/// Urgency in thousandths at `now`: one half without a deadline, full
/// once it has passed, else falling linearly from full to nothing over
/// the day before it (whole minutes left, at least one).
pub open spec fn urgency_at(deadline: Option<i64>, now: i64) -> int {
    match deadline {
        None => 500,
        Some(d) => if d <= now {
            1000
        } else {
            let minutes = if (d - now) / 60_000 >= 1 { (d - now) / 60_000 } else { 1 };
            if minutes >= 1440 { 0 } else { ((1440 - minutes) * 1000) / 1440 }
        },
    }
}

/// Priority of a category, in thousandths.
pub open spec fn category_priority(c: TaskCategory) -> int {
    match c {
        TaskCategory::Emergency => 1000,
        TaskCategory::LifeSupport => 900,
        TaskCategory::Communication => 600,
        TaskCategory::Maintenance => 500,
        TaskCategory::Science => 700,
        TaskCategory::Navigation => 400,
    }
}

/// Readiness in thousandths: full without dependencies, else by status.
pub open spec fn dependency_readiness(has_dependencies: bool, status: TaskStatus) -> int {
    if !has_dependencies {
        1000
    } else {
        match status {
            TaskStatus::Queued => 500,
            TaskStatus::Scheduled => 700,
            TaskStatus::InProgress => 300,
            _ => 0,
        }
    }
}

/// The weighted total of a task at `now`, in millionths.
pub open spec fn total_at(w: PriorityWeights, t: MarsTask, now: i64) -> int {
    w.urgency_weight_milli * urgency_at(t.deadline, now)
        + w.science_weight_milli * t.scientific_value_milli
        + w.category_weight_milli * category_priority(t.category)
        + w.dependency_weight_milli * dependency_readiness(t.dependencies@.len() > 0, t.status)
}

/// The key by which tasks are ordered: emergencies above every other
/// task, then the weighted total.
pub open spec fn priority_key(w: PriorityWeights, t: MarsTask, now: i64) -> int {
    (if t.category == TaskCategory::Emergency { 0x1_0000_0000_0000_0000int } else { 0int }) + total_at(w, t, now)
}

/// Index `a` comes before index `b`: a higher key, or an equal key and an
/// earlier place.
pub open spec fn comes_before(keys: Seq<u128>, a: int, b: int) -> bool {
    keys[a] > keys[b] || (keys[a] == keys[b] && a < b)
}

/// `order` lists the indices of `keys` from the highest key down, equal
/// keys in their first order.
pub open spec fn is_priority_order(keys: Seq<u128>, order: Seq<usize>) -> bool {
    &&& order.len() == keys.len()
    &&& forall|k: int| 0 <= k < order.len() ==> order[k] < keys.len()
    &&& forall|k: int, l: int| 0 <= k < l < order.len() ==> comes_before(keys, order[k] as int, order[l] as int)
}

/// The keys of tasks at `now`, in their order.
pub open spec fn keys_at(w: PriorityWeights, tasks: Seq<&MarsTask>, now: i64) -> Seq<u128> {
    Seq::new(tasks.len(), |i: int| priority_key(w, *tasks[i], now) as u128)
}

/// Indices strictly ordered by `comes_before`.
pub open spec fn strictly_ordered(keys: Seq<u128>, a: Seq<int>) -> bool {
    forall|k: int, l: int| 0 <= k < l < a.len() ==> comes_before(keys, a[k], a[l])
}

/// Two strictly ordered sequences of the same indices are equal.
proof fn lemma_strictly_ordered_equal(keys: Seq<u128>, a: Seq<int>, b: Seq<int>)
    requires
        strictly_ordered(keys, a),
        strictly_ordered(keys, b),
        a.to_set() == b.to_set(),
    ensures
        a == b,
    decreases a.len(),
{
    if a.len() == 0 {
        if b.len() > 0 {
            assert(b.contains(b[0]));
            assert(b.to_set().contains(b[0]));
            assert(false);
        }
        assert(a =~= b);
    } else {
        assert(a.contains(a[0]));
        assert(a.to_set().contains(a[0]));
        assert(b.contains(a[0]));
        let j = choose|j: int| 0 <= j < b.len() && b[j] == a[0];
        assert(b.contains(b[0]));
        assert(b.to_set().contains(b[0]));
        assert(a.contains(b[0]));
        let i = choose|i: int| 0 <= i < a.len() && a[i] == b[0];
        if a[0] != b[0] {
            assert(i > 0 && j > 0);
            assert(comes_before(keys, a[0], a[i]));
            assert(comes_before(keys, b[0], b[j]));
            assert(false);
        }
        let ta = a.drop_first();
        let tb = b.drop_first();
        assert forall|x: int| ta.to_set().contains(x) <==> tb.to_set().contains(x) by {
            if ta.to_set().contains(x) {
                assert(ta.contains(x));
                let k = choose|k: int| 0 <= k < ta.len() && ta[k] == x;
                assert(comes_before(keys, a[0], a[k + 1]));
                assert(a.contains(x));
                assert(a.to_set().contains(x));
                assert(b.contains(x));
                let m = choose|m: int| 0 <= m < b.len() && b[m] == x;
                assert(m != 0);
                assert(tb[m - 1] == x);
                assert(tb.contains(x));
            }
            if tb.to_set().contains(x) {
                assert(tb.contains(x));
                let k = choose|k: int| 0 <= k < tb.len() && tb[k] == x;
                assert(comes_before(keys, b[0], b[k + 1]));
                assert(b.contains(x));
                assert(b.to_set().contains(x));
                assert(a.contains(x));
                let m = choose|m: int| 0 <= m < a.len() && a[m] == x;
                assert(m != 0);
                assert(ta[m - 1] == x);
                assert(ta.contains(x));
            }
        }
        assert(ta.to_set() =~= tb.to_set());
        lemma_strictly_ordered_equal(keys, ta, tb);
        assert(a =~= b) by {
            assert forall|k: int| 0 <= k < a.len() implies a[k] == b[k] by {
                if k > 0 {
                    assert(a[k] == ta[k - 1] && b[k] == tb[k - 1]);
                }
            }
        }
    }
}

/// A priority order holds every index exactly once.
proof fn lemma_order_holds_all(keys: Seq<u128>, a: Seq<usize>)
    requires
        is_priority_order(keys, a),
    ensures
        a.map_values(|x: usize| x as int).to_set() == vstd::set_lib::set_int_range(0, keys.len() as int),
        strictly_ordered(keys, a.map_values(|x: usize| x as int)),
{
    let ai = a.map_values(|x: usize| x as int);
    let full = vstd::set_lib::set_int_range(0, keys.len() as int);
    assert forall|k: int, l: int| 0 <= k < l < ai.len() implies ai[k] != ai[l] by {
        assert(comes_before(keys, a[k] as int, a[l] as int));
    }
    assert(ai.no_duplicates());
    ai.unique_seq_to_set();
    vstd::set_lib::lemma_int_range(0, keys.len() as int);
    assert forall|x: int| ai.to_set().contains(x) implies full.contains(x) by {
        assert(ai.contains(x));
        let k = choose|k: int| 0 <= k < ai.len() && ai[k] == x;
        assert(a[k] < keys.len());
    }
    assert(ai.to_set().subset_of(full));
    vstd::set_lib::lemma_subset_equality(ai.to_set(), full);
    assert forall|k: int, l: int| 0 <= k < l < ai.len() implies comes_before(keys, ai[k], ai[l]) by {
        assert(comes_before(keys, a[k] as int, a[l] as int));
    }
}

/// For given keys there is one priority order only.
pub proof fn lemma_priority_order_unique(keys: Seq<u128>, a: Seq<usize>, b: Seq<usize>)
    requires
        is_priority_order(keys, a),
        is_priority_order(keys, b),
    ensures
        a == b,
{
    lemma_order_holds_all(keys, a);
    lemma_order_holds_all(keys, b);
    let ai = a.map_values(|x: usize| x as int);
    let bi = b.map_values(|x: usize| x as int);
    lemma_strictly_ordered_equal(keys, ai, bi);
    assert forall|k: int| 0 <= k < a.len() implies a[k] == b[k] by {
        assert(ai[k] == bi[k]);
    }
    assert(a =~= b);
}

/// With the same urgency, value and readiness, a task of a higher category
/// scores higher whenever the category counts.
pub proof fn lemma_higher_category_scores_higher(w: PriorityWeights, t1: MarsTask, t2: MarsTask, now: i64)
    requires
        w.category_weight_milli > 0,
        t1.deadline == t2.deadline,
        t1.scientific_value_milli == t2.scientific_value_milli,
        (t1.dependencies@.len() > 0) == (t2.dependencies@.len() > 0),
        t1.status == t2.status,
        category_priority(t1.category) > category_priority(t2.category),
    ensures
        total_at(w, t1, now) > total_at(w, t2, now),
{
    let c1 = category_priority(t1.category);
    let c2 = category_priority(t2.category);
    assert(w.category_weight_milli * c1 > w.category_weight_milli * c2) by (nonlinear_arith)
        requires
            w.category_weight_milli > 0,
            c1 > c2,
    ;
}

/// Category priorities rank Emergency above LifeSupport, LifeSupport above
/// Science, Science above Communication, Communication above Maintenance
/// and Maintenance above Navigation; Maintenance is worth one half.
pub proof fn lemma_category_ranking()
    ensures
        category_priority(TaskCategory::Emergency) > category_priority(TaskCategory::LifeSupport),
        category_priority(TaskCategory::LifeSupport) > category_priority(TaskCategory::Science),
        category_priority(TaskCategory::Science) > category_priority(TaskCategory::Communication),
        category_priority(TaskCategory::Communication) > category_priority(TaskCategory::Maintenance),
        category_priority(TaskCategory::Maintenance) > category_priority(TaskCategory::Navigation),
        category_priority(TaskCategory::Maintenance) == 500,
{
}

/// A weighted total is never negative and stays far below 2^64.
pub proof fn lemma_total_bounds(w: PriorityWeights, t: MarsTask, now: i64)
    ensures
        0 <= total_at(w, t, now) < 0x1_0000_0000_0000_0000,
{
    let u = urgency_at(t.deadline, now);
    let v = t.scientific_value_milli as int;
    let c = category_priority(t.category);
    let d = dependency_readiness(t.dependencies@.len() > 0, t.status);
    assert(0 <= u <= 1000) by {
        match t.deadline {
            None => {},
            Some(dl) => {
                if dl > now {
                    let minutes = if (dl - now) / 60_000 >= 1 { (dl - now) / 60_000 } else { 1 };
                    if minutes < 1440 {
                        assert(0 <= ((1440 - minutes) * 1000) / 1440 <= 1000) by (nonlinear_arith)
                            requires 1 <= minutes < 1440;
                    }
                }
            },
        }
    }
    let wu = w.urgency_weight_milli as int;
    let ws = w.science_weight_milli as int;
    let wc = w.category_weight_milli as int;
    let wd = w.dependency_weight_milli as int;
    assert(0 <= wu * u <= 0x1_0000_0000 * 0x1_0000) by (nonlinear_arith)
        requires 0 <= wu < 0x1_0000_0000, 0 <= u <= 1000;
    assert(0 <= ws * v <= 0x1_0000_0000 * 0x1_0000) by (nonlinear_arith)
        requires 0 <= ws < 0x1_0000_0000, 0 <= v < 0x1_0000;
    assert(0 <= wc * c <= 0x1_0000_0000 * 0x1_0000) by (nonlinear_arith)
        requires 0 <= wc < 0x1_0000_0000, 0 <= c <= 1000;
    assert(0 <= wd * d <= 0x1_0000_0000 * 0x1_0000) by (nonlinear_arith)
        requires 0 <= wd < 0x1_0000_0000, 0 <= d <= 1000;
}

/// With the same deadline, value, dependencies and status, a LifeSupport
/// task is placed before a Maintenance task in the priority order,
/// whatever the weights as long as the category counts.
pub proof fn lemma_life_support_before_maintenance(
    w: PriorityWeights,
    tasks: Seq<&MarsTask>,
    now: i64,
    order: Seq<usize>,
    a: int,
    b: int,
)
    requires
        is_priority_order(keys_at(w, tasks, now), order),
        w.category_weight_milli > 0,
        0 <= a < order.len(),
        0 <= b < order.len(),
        tasks[order[a] as int].category == TaskCategory::LifeSupport,
        tasks[order[b] as int].category == TaskCategory::Maintenance,
        tasks[order[a] as int].deadline == tasks[order[b] as int].deadline,
        tasks[order[a] as int].scientific_value_milli == tasks[order[b] as int].scientific_value_milli,
        (tasks[order[a] as int].dependencies@.len() > 0) == (tasks[order[b] as int].dependencies@.len() > 0),
        tasks[order[a] as int].status == tasks[order[b] as int].status,
    ensures
        a < b,
{
    let keys = keys_at(w, tasks, now);
    let x = order[a] as int;
    let y = order[b] as int;
    let tx = *tasks[x];
    let ty = *tasks[y];
    lemma_higher_category_scores_higher(w, tx, ty, now);
    lemma_total_bounds(w, tx, now);
    lemma_total_bounds(w, ty, now);
    assert(keys[x] == priority_key(w, tx, now) as u128);
    assert(keys[y] == priority_key(w, ty, now) as u128);
    assert(keys[x] > keys[y]);
    if b < a {
        assert(comes_before(keys, y, x));
    }
}

/// The prioritizer.
pub struct TaskPrioritizer {
    weights: PriorityWeights,
}

impl TaskPrioritizer {
    pub closed spec fn weights(&self) -> PriorityWeights {
        self.weights
    }

    /// A prioritizer with the default weights.
    pub fn new() -> (p: Self)
        ensures
            p.weights() == default_weights(),
    {
        TaskPrioritizer { weights: PriorityWeights::default() }
    }

    /// A prioritizer with its own weights.
    pub fn with_weights(weights: PriorityWeights) -> (p: Self)
        ensures
            p.weights() == weights,
    {
        TaskPrioritizer { weights }
    }

    fn compute_urgency(deadline: Option<i64>, now: i64) -> (u: u32)
        ensures
            u == urgency_at(deadline, now),
    {
        match deadline {
            None => 500,
            Some(d) => {
                if d <= now {
                    1000
                } else {
                    let left: i128 = (d as i128) - (now as i128);
                    let whole: i128 = left / 60_000;
                    let minutes: i128 = if whole >= 1 { whole } else { 1 };
                    if minutes >= DAY_MINUTES {
                        0
                    } else {
                        (((DAY_MINUTES - minutes) * 1000) / DAY_MINUTES) as u32
                    }
                }
            },
        }
    }

    fn compute_category_priority(c: TaskCategory) -> (p: u32)
        ensures
            p == category_priority(c),
    {
        match c {
            TaskCategory::Emergency => 1000,
            TaskCategory::LifeSupport => 900,
            TaskCategory::Communication => 600,
            TaskCategory::Maintenance => 500,
            TaskCategory::Science => 700,
            TaskCategory::Navigation => 400,
        }
    }

    fn compute_dependency_readiness(task: &MarsTask) -> (r: u32)
        ensures
            r == dependency_readiness(task.dependencies@.len() > 0, task.status),
    {
        if task.dependencies.len() == 0 {
            return 1000;
        }
        match task.status {
            TaskStatus::Queued => 500,
            TaskStatus::Scheduled => 700,
            TaskStatus::InProgress => 300,
            _ => 0,
        }
    }

    /// The score of a task at `now`.
    pub fn score_task_at(&self, task: &MarsTask, now: i64) -> (s: PriorityScore)
        ensures
            s.task_id == task.id,
            s.urgency_score == urgency_at(task.deadline, now),
            s.science_score == task.scientific_value_milli,
            s.category_score == category_priority(task.category),
            s.dependency_score == dependency_readiness(task.dependencies@.len() > 0, task.status),
            s.total_score == total_at(self.weights(), *task, now),
    {
        let urgency = Self::compute_urgency(task.deadline, now);
        let science: u32 = task.scientific_value_milli as u32;
        let category = Self::compute_category_priority(task.category);
        let dependency = Self::compute_dependency_readiness(task);
        let w = self.weights;
        assert(w.urgency_weight_milli * urgency <= u32::MAX * 1000) by (nonlinear_arith)
            requires urgency <= 1000;
        assert(w.science_weight_milli * science <= u32::MAX * 65535) by (nonlinear_arith)
            requires science <= 65535;
        assert(w.category_weight_milli * category <= u32::MAX * 1000) by (nonlinear_arith)
            requires category <= 1000;
        assert(w.dependency_weight_milli * dependency <= u32::MAX * 1000) by (nonlinear_arith)
            requires dependency <= 1000;
        let total: u64 = (w.urgency_weight_milli as u64) * (urgency as u64)
            + (w.science_weight_milli as u64) * (science as u64)
            + (w.category_weight_milli as u64) * (category as u64)
            + (w.dependency_weight_milli as u64) * (dependency as u64);
        PriorityScore {
            task_id: task.id.clone(),
            total_score: total,
            urgency_score: urgency,
            science_score: science,
            category_score: category,
            dependency_score: dependency,
        }
    }

    /// The score of a task now.
    pub fn score_task(&self, task: &MarsTask) -> (s: PriorityScore)
        ensures
            s.task_id == task.id,
            s.science_score == task.scientific_value_milli,
            s.category_score == category_priority(task.category),
            s.dependency_score == dependency_readiness(task.dependencies@.len() > 0, task.status),
            exists|now: i64| s.urgency_score == urgency_at(task.deadline, now)
                && s.total_score == total_at(self.weights(), *task, now),
    {
        let now = now_millis();
        self.score_task_at(task, now)
    }

    fn keys(&self, tasks: &[&MarsTask], now: i64) -> (v: Vec<u128>)
        ensures
            v@ == keys_at(self.weights(), tasks@, now),
    {
        let mut v: Vec<u128> = Vec::new();
        let mut i: usize = 0;
        while i < tasks.len()
            invariant
                i <= tasks@.len(),
                v@.len() == i,
                forall|k: int| 0 <= k < i ==> v@[k] == priority_key(self.weights(), *tasks@[k], now),
            decreases tasks@.len() - i,
        {
            let s = self.score_task_at(tasks[i], now);
            let lift: u128 = if tasks[i].category == TaskCategory::Emergency { 0x1_0000_0000_0000_0000 } else { 0 };
            v.push(lift + (s.total_score as u128));
            i += 1;
        }
        assert(v@ =~= keys_at(self.weights(), tasks@, now));
        v
    }

    /// The indices of the tasks in priority order at `now`: emergencies
    /// first, then from the highest score down, equal keys in their given
    /// order.
    pub fn priority_order_at(&self, tasks: &[&MarsTask], now: i64) -> (order: Vec<usize>)
        ensures
            is_priority_order(keys_at(self.weights(), tasks@, now), order@),
    {
        let keys = self.keys(tasks, now);
        let n = tasks.len();
        let mut order: Vec<usize> = Vec::new();
        let mut i: usize = 0;
        while i < n
            invariant
                n == keys@.len(),
                i <= n,
                order@.len() == i,
                forall|k: int| 0 <= k < i ==> order@[k] < i,
                forall|k: int, l: int|
                    0 <= k < l < i ==> comes_before(keys@, order@[k] as int, order@[l] as int),
            decreases n - i,
        {
            let s = keys[i];
            let mut p: usize = 0;
            while p < order.len() && keys[order[p]] >= s
                invariant
                    n == keys@.len(),
                    i < n,
                    s == keys@[i as int],
                    order@.len() == i,
                    p <= i,
                    forall|k: int| 0 <= k < i ==> order@[k] < i,
                    forall|k: int| 0 <= k < p ==> keys@[order@[k] as int] >= s,
                decreases i - p,
            {
                p += 1;
            }
            proof {
                assert forall|k: int| p <= k < i implies keys@[order@[k] as int] < s by {
                    assert(keys@[order@[p as int] as int] < s);
                    if k > p {
                        assert(comes_before(keys@, order@[p as int] as int, order@[k] as int));
                    }
                }
            }
            let ghost before = order@;
            order.insert(p, i);
            proof {
                assert(order@ == before.insert(p as int, i));
                assert forall|k: int, l: int| 0 <= k < l < i + 1 implies comes_before(
                    keys@,
                    order@[k] as int,
                    order@[l] as int,
                ) by {
                    if l < p {
                        assert(order@[k] == before[k] && order@[l] == before[l]);
                    } else if l == p {
                        assert(order@[k] == before[k]);
                    } else if k < p {
                        assert(order@[k] == before[k] && order@[l] == before[l - 1]);
                    } else if k == p {
                        assert(order@[l] == before[l - 1]);
                    } else {
                        assert(order@[k] == before[k - 1] && order@[l] == before[l - 1]);
                    }
                }
            }
            i += 1;
        }
        order
    }

    /// The tasks in priority order at `now`: emergencies first, then from
    /// the highest score down, equal keys in their given order.
    pub fn prioritize_at<'a>(&self, tasks: &[&'a MarsTask], now: i64) -> (r: Vec<&'a MarsTask>)
        ensures
            exists|order: Seq<usize>|
                {
                    &&& is_priority_order(keys_at(self.weights(), tasks@, now), order)
                    &&& r@ == order.map_values(|k: usize| tasks@[k as int])
                },
            forall|order: Seq<usize>|
                is_priority_order(keys_at(self.weights(), tasks@, now), order) ==> r@ == order.map_values(
                    |k: usize| tasks@[k as int],
                ),
    {
        let order = self.priority_order_at(tasks, now);
        let mut r: Vec<&'a MarsTask> = Vec::new();
        let mut i: usize = 0;
        while i < order.len()
            invariant
                is_priority_order(keys_at(self.weights(), tasks@, now), order@),
                i <= order@.len(),
                r@ == order@.take(i as int).map_values(|k: usize| tasks@[k as int]),
            decreases order@.len() - i,
        {
            r.push(tasks[order[i]]);
            i += 1;
            assert(r@ =~= order@.take(i as int).map_values(|k: usize| tasks@[k as int]));
        }
        assert(order@.take(order@.len() as int) =~= order@);
        proof {
            assert forall|other: Seq<usize>| is_priority_order(keys_at(self.weights(), tasks@, now), other) implies r@
                == other.map_values(|k: usize| tasks@[k as int]) by {
                lemma_priority_order_unique(keys_at(self.weights(), tasks@, now), order@, other);
            }
        }
        r
    }

    /// The tasks in priority order now: emergencies first, then from the
    /// highest score down, equal keys in their given order.
    pub fn prioritize<'a>(&self, tasks: &[&'a MarsTask]) -> (r: Vec<&'a MarsTask>)
        ensures
            exists|now: i64, order: Seq<usize>|
                {
                    &&& is_priority_order(keys_at(self.weights(), tasks@, now), order)
                    &&& r@ == order.map_values(|k: usize| tasks@[k as int])
                },
    {
        let now = now_millis();
        self.prioritize_at(tasks, now)
    }
}

} // verus!
