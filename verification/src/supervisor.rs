//! What the health report of the AsterQuanta supervisor asks of safe
//! mode. The supervisor's score is held in ten-thousandths.

use vstd::prelude::*;
use crate::bridge::AqmServiceState;
use crate::text::{digit_char, spec_decimal, str_eq, string_of, u64_to_decimal};

verus! {

/// The health report of the AsterQuanta supervisor.
#[derive(Debug)]
pub struct AqmHealthReport {
    /// Health score in ten-thousandths (10000 is full health).
    pub score_per_10k: u32,
    pub system_state: String,
    pub services: Vec<AqmServiceState>,
}

/// What the health report asks of safe mode.
#[derive(Debug, PartialEq, Eq)]
pub enum SafeModeDecision {
    Nominal,
    Immediate { reason: String },
    /// Threshold in ten-thousandths.
    Warning { reason: String, threshold_per_10k: u32 },
    Unknown(String),
}

/// The score below which a degraded system warns: 0.6.
pub const SAFE_MODE_THRESHOLD_PER_10K: u32 = 6000;

/// The names of the services that are not active, in their order.
pub open spec fn down_services(ss: Seq<AqmServiceState>) -> Seq<Seq<char>>
    decreases ss.len(),
{
    if ss.len() == 0 {
        Seq::empty()
    } else {
        let rest = down_services(ss.drop_last());
        if ss.last().active_state@ != "active"@ {
            rest.push(ss.last().service@)
        } else {
            rest
        }
    }
}

/// A score in ten-thousandths, rounded to hundredths and written with two
/// decimals ("0.55").
pub open spec fn two_decimals(score_per_10k: nat) -> Seq<char> {
    let c = (score_per_10k + 50) / 100;
    spec_decimal(c / 100) + seq!['.', digit_char((c % 100) / 10), digit_char(c % 10)]
}

/// The reason given for an immediate safe mode in a critical state: the
/// DTN daemon lost, else the recovery service lost, else how many
/// services are down.
pub open spec fn critical_reason(down: Seq<Seq<char>>) -> Seq<char> {
    if down.contains("aqm-dtnd.service"@) {
        "aqm-dtnd unavailable — communication lost"@
    } else if down.contains("aqm-recovery.service"@) {
        "aqm-recovery unavailable — no rollback capability"@
    } else {
        spec_decimal(down.len()) + " critical services down"@
    }
}

/// The decision for a report: a critical state asks for safe mode at
/// once; a degraded state with a score under 0.6 warns; a nominal one,
/// or a degraded one at or above 0.6, is nominal; any other state is
/// unknown.
pub open spec fn decision_for(d: SafeModeDecision, r: AqmHealthReport) -> bool {
    let state = r.system_state@;
    if state == "critical"@ {
        d matches SafeModeDecision::Immediate { reason } && reason@ == critical_reason(
            down_services(r.services@),
        )
    } else if state == "degraded"@ {
        if r.score_per_10k < SAFE_MODE_THRESHOLD_PER_10K {
            d matches SafeModeDecision::Warning { reason, threshold_per_10k } && threshold_per_10k
                == SAFE_MODE_THRESHOLD_PER_10K && reason@ == "System score "@ + two_decimals(
                r.score_per_10k as nat,
            ) + " below threshold 0.6"@
        } else {
            d == SafeModeDecision::Nominal
        }
    } else if state == "nominal"@ {
        d == SafeModeDecision::Nominal
    } else {
        d matches SafeModeDecision::Unknown(s) && s@ == state
    }
}

fn down_service_names(services: &Vec<AqmServiceState>) -> (names: Vec<String>)
    ensures
        names@.map_values(|s: String| s@) == down_services(services@),
{
    let mut names: Vec<String> = Vec::new();
    let mut i: usize = 0;
    while i < services.len()
        invariant
            i <= services@.len(),
            names@.map_values(|s: String| s@) == down_services(services@.take(i as int)),
        decreases services@.len() - i,
    {
        let s = &services[i];
        assert(services@.take(i + 1).drop_last() =~= services@.take(i as int));
        if !str_eq(s.active_state.as_str(), "active") {
            names.push(s.service.clone());
            assert(names@.map_values(|s: String| s@) =~= down_services(services@.take(i as int)).push(
                services@[i as int].service@,
            ));
        }
        i += 1;
    }
    assert(services@.take(services@.len() as int) =~= services@);
    names
}

fn holds_name(names: &Vec<String>, name: &str) -> (r: bool)
    ensures
        r == names@.map_values(|s: String| s@).contains(name@),
{
    let mut i: usize = 0;
    while i < names.len()
        invariant
            i <= names@.len(),
            forall|k: int| 0 <= k < i ==> names@[k]@ != name@,
        decreases names@.len() - i,
    {
        if str_eq(names[i].as_str(), name) {
            assert(names@.map_values(|s: String| s@)[i as int] == name@);
            return true;
        }
        i += 1;
    }
    proof {
        let v = names@.map_values(|s: String| s@);
        if v.contains(name@) {
            let k = choose|k: int| 0 <= k < v.len() && v[k] == name@;
            assert(names@[k]@ == name@);
        }
    }
    false
}

/// Writes a score in ten-thousandths with two decimals.
fn write_two_decimals(score_per_10k: u32) -> (s: String)
    ensures
        s@ == two_decimals(score_per_10k as nat),
{
    let c: u64 = ((score_per_10k as u64) + 50) / 100;
    let digits = ['0', '1', '2', '3', '4', '5', '6', '7', '8', '9'];
    let mut s = u64_to_decimal(c / 100);
    let tens = digits[((c % 100) / 10) as usize];
    let ones = digits[(c % 10) as usize];
    let cs: Vec<char> = vec!['.', tens, ones];
    let tail = string_of(cs.as_slice());
    proof {
        assert(tens == digit_char(((c % 100) / 10) as nat));
        assert(ones == digit_char((c % 10) as nat));
        assert(tail@ =~= seq!['.', tens, ones]);
    }
    s.append(tail.as_str());
    s
}

/// The safe-mode decision for a health report.
pub fn evaluate_safe_mode_trigger(report: &AqmHealthReport) -> (d: SafeModeDecision)
    ensures
        decision_for(d, *report),
{
    let state = report.system_state.as_str();
    if str_eq(state, "critical") {
        let down = down_service_names(&report.services);
        if holds_name(&down, "aqm-dtnd.service") {
            SafeModeDecision::Immediate { reason: "aqm-dtnd unavailable — communication lost".to_string() }
        } else if holds_name(&down, "aqm-recovery.service") {
            SafeModeDecision::Immediate { reason: "aqm-recovery unavailable — no rollback capability".to_string() }
        } else {
            let mut reason = u64_to_decimal(down.len() as u64);
            reason.append(" critical services down");
            proof {
                assert(down@.map_values(|s: String| s@).len() == down@.len());
            }
            SafeModeDecision::Immediate { reason }
        }
    } else if str_eq(state, "degraded") {
        if report.score_per_10k < SAFE_MODE_THRESHOLD_PER_10K {
            let mut reason = "System score ".to_string();
            let score = write_two_decimals(report.score_per_10k);
            reason.append(score.as_str());
            reason.append(" below threshold 0.6");
            SafeModeDecision::Warning { reason, threshold_per_10k: SAFE_MODE_THRESHOLD_PER_10K }
        } else {
            SafeModeDecision::Nominal
        }
    } else if str_eq(state, "nominal") {
        SafeModeDecision::Nominal
    } else {
        SafeModeDecision::Unknown(state.to_string())
    }
}

} // verus!
