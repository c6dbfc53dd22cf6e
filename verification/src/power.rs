//! Power management of a Mars platform: power gating of circuits,
//! low-power modes, and single-event latch-up (SEL) detection. Power is
//! counted in microwatts and current in microamps.

use vstd::prelude::*;
use crate::hal::HalError;
use crate::text::{contains_text, str_contains, str_eq};

verus! {

/// Power mode.
#[derive(Debug, Clone, Copy, PartialEq, Eq, Structural)]
pub enum PowerMode {
    /// Everything on.
    FullPower,
    /// Non-critical circuits off.
    Reduced,
    /// Only the watchdog and retained memory on.
    Sleep,
    /// Only power management on.
    DeepSleep,
    /// Almost everything off.
    Hibernation,
}

/// A circuit under power gating.
#[derive(Debug)]
pub struct PowerGatedComponent {
    pub name: String,
    pub is_active: bool,
    pub last_gated_at: Option<u64>,
    pub gate_count: u32,
    /// Draw when active, in microwatts.
    pub power_uw: u64,
}

/// Settings of the power manager.
#[derive(Debug)]
pub struct PowerConfig {
    /// Power budget, in microwatts.
    pub max_power_budget_uw: u64,
    /// Current above which a latch-up is assumed, in microamps.
    pub sel_detection_threshold_ua: u64,
    pub auto_gate_threshold_pct: u8,
    pub wake_sources: Vec<String>,
}

impl Default for PowerConfig {
    /// A 200 mW budget, latch-up above 50 mA, auto-gating at 80 %, woken
    /// by the watchdog, a timer or an external interrupt.
    fn default() -> (c: Self)
        ensures
            c.max_power_budget_uw == 200_000,
            c.sel_detection_threshold_ua == 50_000,
            c.auto_gate_threshold_pct == 80,
            c.wake_sources@.len() == 3,
            c.wake_sources@[0]@ == "watchdog"@,
            c.wake_sources@[1]@ == "timer"@,
            c.wake_sources@[2]@ == "external_interrupt"@,
    {
        let mut wake_sources: Vec<String> = Vec::new();
        wake_sources.push("watchdog".to_string());
        wake_sources.push("timer".to_string());
        wake_sources.push("external_interrupt".to_string());
        PowerConfig {
            max_power_budget_uw: 200_000,
            sel_detection_threshold_ua: 50_000,
            auto_gate_threshold_pct: 80,
            wake_sources,
        }
    }
}

/// The total draw of the components, active or not.
pub open spec fn power_of_all(cs: Seq<PowerGatedComponent>) -> nat
    decreases cs.len(),
{
    if cs.len() == 0 {
        0
    } else {
        power_of_all(cs.drop_last()) + cs.last().power_uw as nat
    }
}

/// The draw of the active components.
pub open spec fn power_of_active(cs: Seq<PowerGatedComponent>) -> nat
    decreases cs.len(),
{
    if cs.len() == 0 {
        0
    } else {
        power_of_active(cs.drop_last()) + (if cs.last().is_active { cs.last().power_uw as nat } else { 0nat })
    }
}

/// Whether a mode keeps a component on: full power keeps all; reduced
/// keeps those named "critical" or "life"; the sleep modes keep those
/// named "watchdog" or "memory".
pub open spec fn kept_in(mode: PowerMode, name: Seq<char>) -> bool {
    match mode {
        PowerMode::FullPower => true,
        PowerMode::Reduced => contains_text(name, "critical"@) || contains_text(name, "life"@),
        _ => contains_text(name, "watchdog"@) || contains_text(name, "memory"@),
    }
}

/// A component after being gated.
pub open spec fn gated(c: PowerGatedComponent) -> PowerGatedComponent {
    PowerGatedComponent { is_active: false, last_gated_at: Some(0u64), gate_count: (c.gate_count + 1) as u32, ..c }
}

/// A component after entering `mode`: full power turns every component
/// on; another mode gates each active component it does not keep.
pub open spec fn in_mode(c: PowerGatedComponent, mode: PowerMode) -> PowerGatedComponent {
    if mode == PowerMode::FullPower {
        PowerGatedComponent { is_active: true, ..c }
    } else if c.is_active && !kept_in(mode, c.name@) {
        gated(c)
    } else {
        c
    }
}

/// The first place of a component named `name` whose activity is
/// `active`, or the length when none.
pub open spec fn find_component(cs: Seq<PowerGatedComponent>, name: Seq<char>, active: bool) -> int
    decreases cs.len(),
{
    if cs.len() == 0 {
        0
    } else if cs[0].name@ == name && cs[0].is_active == active {
        0
    } else {
        1 + find_component(cs.drop_first(), name, active)
    }
}

/// The power manager.
pub struct PowerManager {
    config: PowerConfig,
    current_mode: PowerMode,
    components: Vec<PowerGatedComponent>,
    total_power_uw: u64,
    sel_events: u32,
}

impl PowerManager {
    /// The total draw is the draw of the active components, and the draw
    /// of all of them fits the counter.
    pub closed spec fn wf(self) -> bool {
        &&& self.total_power_uw == power_of_active(self.components@)
        &&& power_of_all(self.components@) <= u64::MAX
    }

    /// The components, in registration order.
    pub closed spec fn components(self) -> Seq<PowerGatedComponent> {
        self.components@
    }

    /// The current mode.
    pub closed spec fn mode(self) -> PowerMode {
        self.current_mode
    }

    /// Latch-ups detected so far.
    pub closed spec fn sel_events(self) -> u32 {
        self.sel_events
    }

    /// The current threshold of latch-up detection, in microamps.
    pub closed spec fn sel_threshold(self) -> u64 {
        self.config.sel_detection_threshold_ua
    }

    /// A manager at full power with no component.
    pub fn new(config: PowerConfig) -> (pm: Self)
        ensures
            pm.wf(),
            pm.components().len() == 0,
            pm.mode() == PowerMode::FullPower,
            pm.sel_events() == 0,
            pm.sel_threshold() == config.sel_detection_threshold_ua,
    {
        PowerManager {
            config,
            current_mode: PowerMode::FullPower,
            components: Vec::new(),
            total_power_uw: 0,
            sel_events: 0,
        }
    }

    /// Adds an active component drawing `power_uw`.
    pub fn register_component(&mut self, name: String, power_uw: u64)
        requires
            old(self).wf(),
            power_of_all(old(self).components()) + power_uw <= u64::MAX,
        ensures
            final(self).wf(),
            final(self).components() == old(self).components().push(PowerGatedComponent {
                name,
                is_active: true,
                last_gated_at: None,
                gate_count: 0,
                power_uw,
            }),
            final(self).mode() == old(self).mode(),
            final(self).sel_events() == old(self).sel_events(),
            final(self).sel_threshold() == old(self).sel_threshold(),
    {
        proof {
            lemma_active_within_all(self.components@);
        }
        let mut cs: Vec<PowerGatedComponent> = Vec::new();
        std::mem::swap(&mut cs, &mut self.components);
        let ghost before = cs@;
        cs.push(PowerGatedComponent { name, is_active: true, last_gated_at: None, gate_count: 0, power_uw });
        proof {
            assert(cs@.drop_last() =~= before);
        }
        let total = self.total_power_uw + power_uw;
        self.components = cs;
        self.total_power_uw = total;
    }

    /// Where the first component named `name` with activity `active` is.
    fn find(&self, name: &str, active: bool) -> (i: usize)
        ensures
            i == find_component(self.components(), name@, active),
            i <= self.components().len(),
            i < self.components().len() ==> self.components()[i as int].name@ == name@
                && self.components()[i as int].is_active == active,
    {
        let mut i: usize = 0;
        while i < self.components.len()
            && !(str_eq(self.components[i].name.as_str(), name) && self.components[i].is_active == active)
            invariant
                i <= self.components@.len(),
                forall|j: int| 0 <= j < i ==> !((#[trigger] self.components@[j]).name@ == name@
                    && self.components@[j].is_active == active),
            decreases self.components@.len() - i,
        {
            i = i + 1;
        }
        proof {
            lemma_find_component_at(self.components@, name@, active, i as int);
        }
        i
    }

    /// Gates the first active component named `name` (nothing when there
    /// is none).
    pub fn gate_component(&mut self, name: &str) -> (r: Result<(), HalError>)
        requires
            old(self).wf(),
            ({
                let i = find_component(old(self).components(), name@, true);
                i < old(self).components().len() ==> old(self).components()[i].gate_count < u32::MAX
            }),
        ensures
            r is Ok,
            final(self).wf(),
            ({
                let i = find_component(old(self).components(), name@, true);
                final(self).components() == if i < old(self).components().len() {
                    old(self).components().update(i, gated(old(self).components()[i]))
                } else {
                    old(self).components()
                }
            }),
            final(self).mode() == old(self).mode(),
            final(self).sel_events() == old(self).sel_events(),
            final(self).sel_threshold() == old(self).sel_threshold(),
    {
        let i = self.find(name, true);
        if i < self.components.len() {
            self.switch(i, false);
        }
        Ok(())
    }

    /// Turns back on the first inactive component named `name` (nothing
    /// when there is none).
    pub fn ungate_component(&mut self, name: &str) -> (r: Result<(), HalError>)
        requires
            old(self).wf(),
        ensures
            r is Ok,
            final(self).wf(),
            ({
                let i = find_component(old(self).components(), name@, false);
                final(self).components() == if i < old(self).components().len() {
                    old(self).components().update(i, PowerGatedComponent { is_active: true, ..old(self).components()[i] })
                } else {
                    old(self).components()
                }
            }),
            final(self).mode() == old(self).mode(),
            final(self).sel_events() == old(self).sel_events(),
            final(self).sel_threshold() == old(self).sel_threshold(),
    {
        let i = self.find(name, false);
        if i < self.components.len() {
            self.switch(i, true);
        }
        Ok(())
    }

    /// Gates (`on` false) an active component, or turns on an inactive
    /// one, keeping the total draw in step.
    fn switch(&mut self, i: usize, on: bool)
        requires
            old(self).wf(),
            i < old(self).components().len(),
            old(self).components()[i as int].is_active == !on,
            !on ==> old(self).components()[i as int].gate_count < u32::MAX,
        ensures
            final(self).components() == old(self).components().update(i as int,
                if on {
                    PowerGatedComponent { is_active: true, ..old(self).components()[i as int] }
                } else {
                    gated(old(self).components()[i as int])
                }),
            final(self).wf(),
            final(self).mode() == old(self).mode(),
            final(self).sel_events() == old(self).sel_events(),
            final(self).sel_threshold() == old(self).sel_threshold(),
    {
        let mut cs: Vec<PowerGatedComponent> = Vec::new();
        std::mem::swap(&mut cs, &mut self.components);
        let ghost before = cs@;
        let mut c = cs.remove(i);
        let power = c.power_uw;
        if on {
            c.is_active = true;
        } else {
            c.is_active = false;
            c.last_gated_at = Some(0);
            c.gate_count = c.gate_count + 1;
        }
        cs.insert(i, c);
        proof {
            lemma_switch_power(before, i as int, cs@);
            lemma_active_within_all(before);
            lemma_active_within_all(cs@);
        }
        let total = if on { self.total_power_uw + power } else { self.total_power_uw - power };
        self.components = cs;
        self.total_power_uw = total;
    }

    /// Enters a power mode: full power turns every component on; reduced
    /// gates the active components not named "critical" or "life"; the
    /// sleep modes gate the active components not named "watchdog" or
    /// "memory".
    pub fn set_mode(&mut self, mode: PowerMode)
        requires
            old(self).wf(),
            forall|k: int| 0 <= k < old(self).components().len() ==> (#[trigger] old(self).components()[k]).gate_count < u32::MAX,
        ensures
            final(self).wf(),
            final(self).mode() == mode,
            final(self).components() == old(self).components().map_values(|c: PowerGatedComponent| in_mode(c, mode)),
            final(self).sel_events() == old(self).sel_events(),
            final(self).sel_threshold() == old(self).sel_threshold(),
    {
        let mut rest: Vec<PowerGatedComponent> = Vec::new();
        std::mem::swap(&mut rest, &mut self.components);
        let ghost all = rest@;
        proof {
            assert forall|k: int| 0 <= k < all.len() implies (#[trigger] all[k]).gate_count < u32::MAX by {
                assert(all[k] == old(self).components()[k]);
            }
        }
        let mut done: Vec<PowerGatedComponent> = Vec::new();
        let mut total: u64 = 0;
        while rest.len() > 0
            invariant
                rest@ == all.skip(all.len() - rest@.len()),
                rest@.len() <= all.len(),
                forall|k: int| 0 <= k < all.len() ==> (#[trigger] all[k]).gate_count < u32::MAX,
                power_of_all(all) <= u64::MAX,
                done@ == all.take(all.len() - rest@.len()).map_values(|c: PowerGatedComponent| in_mode(c, mode)),
                total == power_of_active(done@),
            decreases rest@.len(),
        {
            let ghost k = all.len() - rest@.len();
            let mut c = rest.remove(0);
            proof {
                assert(c == all[k]);
                assert(rest@ =~= all.skip(k + 1));
            }
            let keep = match mode {
                PowerMode::FullPower => true,
                PowerMode::Reduced => str_contains(c.name.as_str(), "critical") || str_contains(c.name.as_str(), "life"),
                _ => str_contains(c.name.as_str(), "watchdog") || str_contains(c.name.as_str(), "memory"),
            };
            if matches!(mode, PowerMode::FullPower) {
                c.is_active = true;
            } else if c.is_active && !keep {
                c.is_active = false;
                c.last_gated_at = Some(0);
                c.gate_count = c.gate_count + 1;
            }
            proof {
                assert(c == in_mode(all[k], mode));
                lemma_mode_power_bound(all, k + 1, mode);
            }
            let ghost prev = done@;
            let add: u64 = if c.is_active { c.power_uw } else { 0 };
            done.push(c);
            proof {
                assert(done@ =~= all.take(k + 1).map_values(|c: PowerGatedComponent| in_mode(c, mode)));
                assert(done@.drop_last() =~= prev);
            }
            total = total + add;
        }
        proof {
            assert(all.take(all.len() as int) =~= all);
            lemma_mode_power_all(all, mode);
        }
        self.components = done;
        self.total_power_uw = total;
        self.current_mode = mode;
    }

    /// A latch-up is detected when the draw exceeds the threshold: it is
    /// counted and the platform goes to reduced power at once.
    pub fn detect_sel(&mut self, current_draw_ua: u64) -> (detected: bool)
        requires
            old(self).wf(),
            current_draw_ua > old(self).sel_threshold() ==> old(self).sel_events() < u32::MAX,
            forall|k: int| 0 <= k < old(self).components().len() ==> (#[trigger] old(self).components()[k]).gate_count < u32::MAX,
        ensures
            final(self).wf(),
            detected == (current_draw_ua > old(self).sel_threshold()),
            detected ==> {
                &&& final(self).sel_events() == old(self).sel_events() + 1
                &&& final(self).mode() == PowerMode::Reduced
                &&& final(self).components() == old(self).components().map_values(
                    |c: PowerGatedComponent| in_mode(c, PowerMode::Reduced))
            },
            !detected ==> {
                &&& final(self).sel_events() == old(self).sel_events()
                &&& final(self).mode() == old(self).mode()
                &&& final(self).components() == old(self).components()
            },
            final(self).sel_threshold() == old(self).sel_threshold(),
    {
        if current_draw_ua > self.config.sel_detection_threshold_ua {
            self.sel_events = self.sel_events + 1;
            proof {
                assert forall|k: int| 0 <= k < self.components().len() implies (#[trigger] self.components()[k]).gate_count < u32::MAX by {
                    assert(self.components()[k] == old(self).components()[k]);
                }
            }
            self.set_mode(PowerMode::Reduced);
            return true;
        }
        false
    }

    /// The current mode.
    pub fn get_mode(&self) -> (m: &PowerMode)
        ensures
            *m == self.mode(),
    {
        &self.current_mode
    }

    /// The draw of the active components, in microwatts.
    pub fn get_total_power(&self) -> (p: u64)
        requires
            self.wf(),
        ensures
            p == power_of_active(self.components()),
    {
        self.total_power_uw
    }

    /// Latch-ups detected so far.
    pub fn get_sel_count(&self) -> (n: u32)
        ensures
            n == self.sel_events(),
    {
        self.sel_events
    }
}

/// `find_component` is the first place that matches.
pub proof fn lemma_find_component_at(cs: Seq<PowerGatedComponent>, name: Seq<char>, active: bool, p: int)
    requires
        0 <= p <= cs.len(),
        forall|j: int| 0 <= j < p ==> !((#[trigger] cs[j]).name@ == name && cs[j].is_active == active),
        p < cs.len() ==> cs[p].name@ == name && cs[p].is_active == active,
    ensures
        find_component(cs, name, active) == p,
    decreases cs.len(),
{
    if cs.len() > 0 && p > 0 {
        assert(!(cs[0].name@ == name && cs[0].is_active == active));
        assert forall|j: int| 0 <= j < p - 1 implies !((#[trigger] cs.drop_first()[j]).name@ == name
            && cs.drop_first()[j].is_active == active) by {
            assert(cs.drop_first()[j] == cs[j + 1]);
        }
        if p < cs.len() {
            assert(cs.drop_first()[p - 1] == cs[p]);
        }
        lemma_find_component_at(cs.drop_first(), name, active, p - 1);
    }
}

/// The active draw never exceeds the total draw.
pub proof fn lemma_active_within_all(cs: Seq<PowerGatedComponent>)
    ensures
        power_of_active(cs) <= power_of_all(cs),
    decreases cs.len(),
{
    if cs.len() > 0 {
        lemma_active_within_all(cs.drop_last());
    }
}

/// Switching one component changes the active draw by its power, and
/// leaves the total draw alone.
pub proof fn lemma_switch_power(before: Seq<PowerGatedComponent>, i: int, after: Seq<PowerGatedComponent>)
    requires
        0 <= i < before.len(),
        after.len() == before.len(),
        forall|k: int| 0 <= k < before.len() && k != i ==> after[k] == before[k],
        after[i].power_uw == before[i].power_uw,
    ensures
        power_of_all(after) == power_of_all(before),
        power_of_active(after) + (if before[i].is_active { before[i].power_uw as int } else { 0 })
            == power_of_active(before) + (if after[i].is_active { after[i].power_uw as int } else { 0 }),
    decreases before.len(),
{
    if i < before.len() - 1 {
        assert forall|k: int| 0 <= k < before.len() - 1 && k != i implies after.drop_last()[k] == before.drop_last()[k] by {
            assert(after.drop_last()[k] == after[k]);
        }
        lemma_switch_power(before.drop_last(), i, after.drop_last());
    } else {
        assert(after.drop_last() =~= before.drop_last());
    }
}

/// Entering a mode leaves the total draw alone; the draw of the first
/// `k` components is then within it.
pub proof fn lemma_mode_power_bound(cs: Seq<PowerGatedComponent>, k: int, mode: PowerMode)
    requires
        0 <= k <= cs.len(),
    ensures
        power_of_active(cs.take(k).map_values(|c: PowerGatedComponent| in_mode(c, mode))) <= power_of_all(cs),
{
    lemma_mode_power_all(cs.take(k), mode);
    lemma_active_within_all(cs.take(k).map_values(|c: PowerGatedComponent| in_mode(c, mode)));
    lemma_power_prefix(cs, k);
}

/// Entering a mode leaves the total draw alone.
pub proof fn lemma_mode_power_all(cs: Seq<PowerGatedComponent>, mode: PowerMode)
    ensures
        power_of_all(cs.map_values(|c: PowerGatedComponent| in_mode(c, mode))) == power_of_all(cs),
    decreases cs.len(),
{
    if cs.len() > 0 {
        assert(cs.map_values(|c: PowerGatedComponent| in_mode(c, mode)).drop_last()
            =~= cs.drop_last().map_values(|c: PowerGatedComponent| in_mode(c, mode)));
        lemma_mode_power_all(cs.drop_last(), mode);
    }
}

/// A prefix draws no more than the whole.
pub proof fn lemma_power_prefix(cs: Seq<PowerGatedComponent>, k: int)
    requires
        0 <= k <= cs.len(),
    ensures
        power_of_all(cs.take(k)) <= power_of_all(cs),
    decreases cs.len(),
{
    if k < cs.len() {
        assert(cs.drop_last().take(k) =~= cs.take(k));
        lemma_power_prefix(cs.drop_last(), k);
    } else {
        assert(cs.take(k) =~= cs);
    }
}

/// At full power every component draws: the active draw is the total
/// draw.
pub proof fn lemma_full_power_draws_all(cs: Seq<PowerGatedComponent>)
    ensures
        power_of_active(cs.map_values(|c: PowerGatedComponent| in_mode(c, PowerMode::FullPower))) == power_of_all(cs),
    decreases cs.len(),
{
    if cs.len() > 0 {
        assert(cs.map_values(|c: PowerGatedComponent| in_mode(c, PowerMode::FullPower)).drop_last()
            =~= cs.drop_last().map_values(|c: PowerGatedComponent| in_mode(c, PowerMode::FullPower)));
        lemma_full_power_draws_all(cs.drop_last());
    }
}

} // verus!
