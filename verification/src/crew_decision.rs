//! Decision support for the crew: groups the active anomalies by kind of
//! situation and offers, for each, the options to choose from, the one
//! the system recommends, and how urgent the decision is. Times are Unix
//! milliseconds.

use vstd::prelude::*;
use crate::clock::{now_millis, in_clock_range, floor_seconds};
use crate::health::{Anomaly, AnomalySeverity, ComponentId, SafeModeLevel};
use crate::text::{chars_of, string_of, str_eq, is_white, char_is_white, skip_white_from, word_end_from, first_word, spec_signed_decimal, spec_decimal,
    i64_to_decimal, u64_to_decimal, concat2};

verus! {

/// An option offered to the crew.
#[derive(Debug)]
pub struct DecisionOption {
    pub id: String,
    pub title: String,
    pub description: String,
    pub risk_level: RiskLevel,
    pub time_to_execute_secs: u32,
    pub reversibility: bool,
    pub expected_outcome: String,
    /// Whether the system recommends this option.
    pub system_recommendation: bool,
}

impl Clone for DecisionOption {
    fn clone(&self) -> (r: Self)
        ensures
            r == *self,
    {
        DecisionOption {
            id: self.id.clone(),
            title: self.title.clone(),
            description: self.description.clone(),
            risk_level: self.risk_level,
            time_to_execute_secs: self.time_to_execute_secs,
            reversibility: self.reversibility,
            expected_outcome: self.expected_outcome.clone(),
            system_recommendation: self.system_recommendation,
        }
    }
}

/// Risk of an option, in increasing order.
#[derive(Debug, Clone, Copy, PartialEq, Eq, PartialOrd, Ord, Structural)]
pub enum RiskLevel {
    Minimal,
    Low,
    Moderate,
    High,
    Critical,
}

/// How soon the crew must decide.
#[derive(Debug, Clone, Copy, PartialEq, Eq, Structural)]
pub enum TimePressure {
    /// The decision can wait (hours).
    Extended,
    /// Decide within the current window (minutes).
    Normal,
    /// Decide at once (seconds).
    Immediate,
}

/// A recommendation for one situation.
#[derive(Debug)]
pub struct CrewRecommendation {
    pub id: String,
    pub title: String,
    pub severity: AnomalySeverity,
    pub situation_summary: String,
    pub affected_systems: Vec<ComponentId>,
    pub options: Vec<DecisionOption>,
    pub recommended_option: String,
    pub time_pressure: TimePressure,
    pub generated_at: i64,
}

/// Options prepared for one kind of situation.
#[derive(Debug)]
struct DecisionTemplate {
    situation_type: String,
    default_options: Vec<DecisionOption>,
    escalation_threshold: AnomalySeverity,
}

/// The crew decision-support engine.
pub struct CrewDecisionSupport {
    templates: Vec<DecisionTemplate>,
}

/// An option with the given fields.
pub open spec fn option_matches(
    o: DecisionOption,
    id: Seq<char>,
    title: Seq<char>,
    description: Seq<char>,
    risk: RiskLevel,
    secs: u32,
    reversible: bool,
    outcome: Seq<char>,
    recommended: bool,
) -> bool {
    &&& o.id@ == id
    &&& o.title@ == title
    &&& o.description@ == description
    &&& o.risk_level == risk
    &&& o.time_to_execute_secs == secs
    &&& o.reversibility == reversible
    &&& o.expected_outcome@ == outcome
    &&& o.system_recommendation == recommended
}

/// The options offered for power loss.
pub open spec fn power_loss_options(os: Seq<DecisionOption>) -> bool {
    &&& os.len() == 3
    &&& option_matches(os[0], "power_reduce_load"@, "Réduire la charge électrique"@, "Désactiver les systèmes non-critiques (caméras, instruments non-essentiels)"@, RiskLevel::Low, 60, true, "Consommation réduite de 30%, systèmes critiques maintenus"@, true)
    &&& option_matches(os[1], "power_switch_source"@, "Basculer vers source secondaire"@, "Activer les batteries de secours ou le RTG secondaire"@, RiskLevel::Moderate, 120, true, "Alimentation restaurée via source redondante"@, false)
    &&& option_matches(os[2], "power_safe_mode"@, "Entrer en mode safe"@, "Arrêter tous les systèmes non-vitaux, contacter la Terre"@, RiskLevel::High, 30, true, "Survie garantie, mission scientifique suspendue"@, false)
}

/// The options offered for a thermal anomaly.
pub open spec fn thermal_options(os: Seq<DecisionOption>) -> bool {
    &&& os.len() == 2
    &&& option_matches(os[0], "thermal_adjust_setpoint"@, "Ajuster le point de consigne thermique"@, "Modifier la température cible du système de contrôle thermique"@, RiskLevel::Low, 300, true, "Stabilisation thermique progressive"@, true)
    &&& option_matches(os[1], "thermal_reduce_activity"@, "Réduire l'activité du système"@, "Limiter les opérations génératrices de chaleur"@, RiskLevel::Moderate, 600, true, "Réduction de la charge thermique"@, false)
}

/// The options offered for any other situation.
pub open spec fn general_options(os: Seq<DecisionOption>) -> bool {
    &&& os.len() == 2
    &&& option_matches(os[0], "general_monitor"@, "Continuer la surveillance"@, "Maintenir l'observation des paramètres affectés"@, RiskLevel::Low, 0, true, "Données supplémentaires pour décision éclairée"@, true)
    &&& option_matches(os[1], "general_safe_mode"@, "Entrer en safe mode"@, "Protéger les systèmes et contacter la Terre"@, RiskLevel::High, 30, true, "Sécurité maximale, mission suspendue"@, false)
}

/// The options for this situation.
fn make_power_loss_options() -> (os: Vec<DecisionOption>)
    ensures
        power_loss_options(os@),
{
    let mut os: Vec<DecisionOption> = Vec::new();
    os.push(DecisionOption {
        id: "power_reduce_load".to_string(),
        title: "Réduire la charge électrique".to_string(),
        description: "Désactiver les systèmes non-critiques (caméras, instruments non-essentiels)".to_string(),
        risk_level: RiskLevel::Low,
        time_to_execute_secs: 60,
        reversibility: true,
        expected_outcome: "Consommation réduite de 30%, systèmes critiques maintenus".to_string(),
        system_recommendation: true,
    });
    os.push(DecisionOption {
        id: "power_switch_source".to_string(),
        title: "Basculer vers source secondaire".to_string(),
        description: "Activer les batteries de secours ou le RTG secondaire".to_string(),
        risk_level: RiskLevel::Moderate,
        time_to_execute_secs: 120,
        reversibility: true,
        expected_outcome: "Alimentation restaurée via source redondante".to_string(),
        system_recommendation: false,
    });
    os.push(DecisionOption {
        id: "power_safe_mode".to_string(),
        title: "Entrer en mode safe".to_string(),
        description: "Arrêter tous les systèmes non-vitaux, contacter la Terre".to_string(),
        risk_level: RiskLevel::High,
        time_to_execute_secs: 30,
        reversibility: true,
        expected_outcome: "Survie garantie, mission scientifique suspendue".to_string(),
        system_recommendation: false,
    });
    os
}

/// The options for this situation.
fn make_thermal_options() -> (os: Vec<DecisionOption>)
    ensures
        thermal_options(os@),
{
    let mut os: Vec<DecisionOption> = Vec::new();
    os.push(DecisionOption {
        id: "thermal_adjust_setpoint".to_string(),
        title: "Ajuster le point de consigne thermique".to_string(),
        description: "Modifier la température cible du système de contrôle thermique".to_string(),
        risk_level: RiskLevel::Low,
        time_to_execute_secs: 300,
        reversibility: true,
        expected_outcome: "Stabilisation thermique progressive".to_string(),
        system_recommendation: true,
    });
    os.push(DecisionOption {
        id: "thermal_reduce_activity".to_string(),
        title: "Réduire l'activité du système".to_string(),
        description: "Limiter les opérations génératrices de chaleur".to_string(),
        risk_level: RiskLevel::Moderate,
        time_to_execute_secs: 600,
        reversibility: true,
        expected_outcome: "Réduction de la charge thermique".to_string(),
        system_recommendation: false,
    });
    os
}

/// The options for this situation.
fn make_general_options() -> (os: Vec<DecisionOption>)
    ensures
        general_options(os@),
{
    let mut os: Vec<DecisionOption> = Vec::new();
    os.push(DecisionOption {
        id: "general_monitor".to_string(),
        title: "Continuer la surveillance".to_string(),
        description: "Maintenir l'observation des paramètres affectés".to_string(),
        risk_level: RiskLevel::Low,
        time_to_execute_secs: 0,
        reversibility: true,
        expected_outcome: "Données supplémentaires pour décision éclairée".to_string(),
        system_recommendation: true,
    });
    os.push(DecisionOption {
        id: "general_safe_mode".to_string(),
        title: "Entrer en safe mode".to_string(),
        description: "Protéger les systèmes et contacter la Terre".to_string(),
        risk_level: RiskLevel::High,
        time_to_execute_secs: 30,
        reversibility: true,
        expected_outcome: "Sécurité maximale, mission suspendue".to_string(),
        system_recommendation: false,
    });
    os
}

/// Code of the ASCII lower case of a character.
pub open spec fn lower_code(c: char) -> u32 {
    if 'A' <= c && c <= 'Z' {
        ((c as u32) + 32) as u32
    } else {
        c as u32
    }
}

/// Whether `w` is `kw` up to ASCII case.
pub open spec fn same_ignoring_case(w: Seq<char>, kw: Seq<char>) -> bool {
    &&& w.len() == kw.len()
    &&& forall|i: int| 0 <= i < w.len() ==> lower_code(w[i]) == kw[i] as u32
}

/// The kind of situation an anomaly belongs to, by the first word of its
/// description: power for "voltage", "power", "battery"; thermal for
/// "temperature", "thermal", "heat" (in any case); general otherwise. (On
/// these words Unicode lower-casing and ASCII lower-casing agree.)
pub open spec fn situation_of(description: Seq<char>) -> Seq<char> {
    let w = first_word(description);
    if same_ignoring_case(w, "voltage"@) || same_ignoring_case(w, "power"@) || same_ignoring_case(w, "battery"@) {
        "power_loss"@
    } else if same_ignoring_case(w, "temperature"@) || same_ignoring_case(w, "thermal"@) || same_ignoring_case(w, "heat"@) {
        "thermal_anomaly"@
    } else {
        "general"@
    }
}

/// The anomalies of the given situation, in order.
pub open spec fn members(anomalies: Seq<Anomaly>, situation: Seq<char>) -> Seq<Anomaly>
    decreases anomalies.len(),
{
    if anomalies.len() == 0 {
        Seq::empty()
    } else if situation_of(anomalies.last().description@) == situation {
        members(anomalies.drop_last(), situation).push(anomalies.last())
    } else {
        members(anomalies.drop_last(), situation)
    }
}

/// The situations that have at least one anomaly, in the order power,
/// thermal, general.
pub open spec fn present_situations(anomalies: Seq<Anomaly>) -> Seq<Seq<char>> {
    let p: Seq<Seq<char>> = if members(anomalies, "power_loss"@).len() > 0 { seq!["power_loss"@] } else { Seq::empty() };
    let t: Seq<Seq<char>> = if members(anomalies, "thermal_anomaly"@).len() > 0 { seq!["thermal_anomaly"@] } else { Seq::empty() };
    let g: Seq<Seq<char>> = if members(anomalies, "general"@).len() > 0 { seq!["general"@] } else { Seq::empty() };
    p + t + g
}

/// The highest severity among anomalies (Info when there is none).
pub open spec fn max_severity(ms: Seq<Anomaly>) -> AnomalySeverity
    decreases ms.len(),
{
    if ms.len() == 0 {
        AnomalySeverity::Info
    } else if max_severity(ms.drop_last()).level() >= ms.last().severity.level() {
        max_severity(ms.drop_last())
    } else {
        ms.last().severity
    }
}

/// How soon the crew must decide, by severity.
pub open spec fn pressure_for(s: AnomalySeverity) -> TimePressure {
    match s {
        AnomalySeverity::Emergency => TimePressure::Immediate,
        AnomalySeverity::Critical => TimePressure::Normal,
        _ => TimePressure::Extended,
    }
}

/// The descriptions of anomalies, separated by "; ".
pub open spec fn joined_descriptions(ms: Seq<Anomaly>) -> Seq<char>
    decreases ms.len(),
{
    if ms.len() == 0 {
        Seq::empty()
    } else if ms.len() == 1 {
        ms[0].description@
    } else {
        joined_descriptions(ms.drop_last()) + "; "@ + ms.last().description@
    }
}

/// The identifier of the first option the system recommends, or of the
/// first option when it recommends none.
pub open spec fn recommended_id(os: Seq<DecisionOption>) -> Seq<char>
    decreases os.len(),
{
    if os.len() == 0 {
        Seq::empty()
    } else if os[0].system_recommendation {
        os[0].id@
    } else if exists|k: int| 0 <= k < os.len() && os[k].system_recommendation {
        recommended_id(os.drop_first())
    } else {
        os[0].id@
    }
}

/// The recommendation made at `now` for `situation`, whose anomalies are
/// `ms`.
pub open spec fn recommendation_matches(r: CrewRecommendation, situation: Seq<char>, ms: Seq<Anomaly>, now: i64) -> bool {
    &&& r.id@ == "rec-"@ + situation + "-"@ + spec_signed_decimal(now / 1000)
    &&& r.title@ == "Anomalie "@ + situation + ": "@ + spec_decimal(ms.len()) + " système(s) affecté(s)"@
    &&& r.severity == max_severity(ms)
    &&& r.situation_summary@ == joined_descriptions(ms)
    &&& r.affected_systems@ == ms.map_values(|a: Anomaly| a.component)
    &&& (situation == "power_loss"@ ==> power_loss_options(r.options@))
    &&& (situation == "thermal_anomaly"@ ==> thermal_options(r.options@))
    &&& (situation == "general"@ ==> general_options(r.options@))
    &&& r.recommended_option@ == recommended_id(r.options@)
    &&& r.time_pressure == pressure_for(max_severity(ms))
    &&& r.generated_at == now
}

/// The longest a decision may wait after detection, in milliseconds, by
/// severity: 30 s, 5 min, 15 min, 1 h.
pub open spec fn max_decision_delay_ms(s: AnomalySeverity) -> int {
    match s {
        AnomalySeverity::Emergency => 30_000,
        AnomalySeverity::Critical => 300_000,
        AnomalySeverity::Warning => 900_000,
        AnomalySeverity::Info => 3_600_000,
    }
}

/// Name of the situation with index 0 (power), 1 (thermal) or 2 (general).
pub open spec fn situation_name(k: int) -> Seq<char> {
    if k == 0 {
        "power_loss"@
    } else if k == 1 {
        "thermal_anomaly"@
    } else {
        "general"@
    }
}

/// Whether the word `w` is `kw` up to ASCII case.
fn lower_word_is(w: &Vec<char>, kw: &str) -> (r: bool)
    ensures
        r == same_ignoring_case(w@, kw@),
{
    let k = chars_of(kw);
    if w.len() != k.len() {
        return false;
    }
    let mut i: usize = 0;
    while i < w.len()
        invariant
            i <= w@.len(),
            w@.len() == k@.len(),
            k@ == kw@,
            forall|j: int| 0 <= j < i ==> lower_code(w@[j]) == k@[j] as u32,
        decreases w@.len() - i,
    {
        let c = w[i];
        let code: u32 = if 'A' <= c && c <= 'Z' { (c as u32) + 32 } else { c as u32 };
        if code != k[i] as u32 {
            return false;
        }
        i = i + 1;
    }
    true
}

/// The index of the situation a description belongs to.
fn situation_index(description: &str) -> (k: u8)
    ensures
        k < 3,
        situation_of(description@) == situation_name(k as int),
{
    let cs = chars_of(description);
    let mut i: usize = 0;
    while i < cs.len() && char_is_white(cs[i])
        invariant
            i <= cs@.len(),
            skip_white_from(cs@, i as int) == skip_white_from(cs@, 0),
        decreases cs@.len() - i,
    {
        i = i + 1;
    }
    let b = i;
    let mut w: Vec<char> = Vec::new();
    while i < cs.len() && !char_is_white(cs[i])
        invariant
            b <= i <= cs@.len(),
            b == skip_white_from(cs@, 0),
            word_end_from(cs@, i as int) == word_end_from(cs@, b as int),
            w@ == cs@.subrange(b as int, i as int),
        decreases cs@.len() - i,
    {
        w.push(cs[i]);
        i = i + 1;
        proof {
            assert(w@ =~= cs@.subrange(b as int, i as int));
        }
    }
    proof {
        assert(w@ == first_word(description@));
    }
    if lower_word_is(&w, "voltage") || lower_word_is(&w, "power") || lower_word_is(&w, "battery") {
        0
    } else if lower_word_is(&w, "temperature") || lower_word_is(&w, "thermal") || lower_word_is(&w, "heat") {
        1
    } else {
        2
    }
}

/// Each anomaly before `n` has the situation index `classes` gives.
spec fn classified(anomalies: Seq<Anomaly>, classes: Seq<u8>, n: int) -> bool {
    forall|i: int| 0 <= i < n ==> #[trigger] classes[i] < 3
        && situation_of(anomalies[i].description@) == situation_name(classes[i] as int)
}

/// The three situation names differ.
proof fn lemma_situation_names_distinct()
    ensures
        forall|a: int, b: int| 0 <= a < 3 && 0 <= b < 3 && situation_name(a) == situation_name(b) ==> a == b,
{
    reveal_strlit("power_loss");
    reveal_strlit("thermal_anomaly");
    reveal_strlit("general");
    assert("power_loss"@.len() == 10);
    assert("thermal_anomaly"@.len() == 15);
    assert("general"@.len() == 7);
}

impl CrewDecisionSupport {
    #[verifier::type_invariant]
    spec fn standard_templates(self) -> bool {
        &&& self.templates@.len() == 2
        &&& self.templates@[0].situation_type@ == "power_loss"@
        &&& power_loss_options(self.templates@[0].default_options@)
        &&& self.templates@[1].situation_type@ == "thermal_anomaly"@
        &&& thermal_options(self.templates@[1].default_options@)
    }

    /// The recommendation for the situation with index `k`, when it has
    /// anomalies; `classes` gives the situation index of each anomaly.
    fn recommendation_for(&self, anomalies: &[Anomaly], classes: &Vec<u8>, k: u8, now: i64) -> (r: Option<CrewRecommendation>)
        requires
            k < 3,
            classes@.len() == anomalies@.len(),
            classified(anomalies@, classes@, classes@.len() as int),
        ensures
            members(anomalies@, situation_name(k as int)).len() == 0 ==> r is None,
            members(anomalies@, situation_name(k as int)).len() > 0 ==> (r matches Some(rec)
                && recommendation_matches(rec, situation_name(k as int), members(anomalies@, situation_name(k as int)), now)),
    {
        proof {
            use_type_invariant(self);
            lemma_situation_names_distinct();
        }
        let ghost name = situation_name(k as int);
        let mut count: u64 = 0;
        let mut comps: Vec<ComponentId> = Vec::new();
        let mut summary = String::new();
        let mut max_sev = AnomalySeverity::Info;
        let mut j: usize = 0;
        while j < anomalies.len()
            invariant
                j <= anomalies@.len(),
                k < 3,
                name == situation_name(k as int),
                classes@.len() == anomalies@.len(),
                classified(anomalies@, classes@, classes@.len() as int),
                forall|a: int, b: int| 0 <= a < 3 && 0 <= b < 3 && situation_name(a) == situation_name(b) ==> a == b,
                count == members(anomalies@.take(j as int), name).len(),
                count <= j,
                comps@ == members(anomalies@.take(j as int), name).map_values(|a: Anomaly| a.component),
                summary@ == joined_descriptions(members(anomalies@.take(j as int), name)),
                max_sev == max_severity(members(anomalies@.take(j as int), name)),
            decreases anomalies@.len() - j,
        {
            let ghost ms = members(anomalies@.take(j as int), name);
            proof {
                assert(anomalies@.take(j + 1).drop_last() =~= anomalies@.take(j as int));
                assert(anomalies@.take(j + 1).last() == anomalies@[j as int]);
                assert(classes@[j as int] < 3);
                assert(situation_of(anomalies@[j as int].description@) == situation_name(classes@[j as int] as int));
            }
            if classes[j] == k {
                let a = &anomalies[j];
                proof {
                    assert(members(anomalies@.take(j + 1), name) == ms.push(*a));
                    assert(ms.push(*a).drop_last() =~= ms);
                    assert(ms.push(*a).map_values(|a: Anomaly| a.component) =~= ms.map_values(|a: Anomaly| a.component).push(a.component));
                }
                if count == 0 {
                    summary = a.description.clone();
                    max_sev = a.severity;
                    proof {
                        assert(ms.push(*a)[0] == *a);
                    }
                } else {
                    summary.append("; ");
                    summary.append(a.description.as_str());
                    if a.severity.rank() > max_sev.rank() {
                        max_sev = a.severity;
                    }
                }
                comps.push(a.component.clone());
                count = count + 1;
            } else {
                proof {
                    assert(members(anomalies@.take(j + 1), name) == ms);
                }
            }
            j = j + 1;
        }
        proof {
            assert(anomalies@.take(anomalies@.len() as int) =~= anomalies@);
        }
        if count == 0 {
            return None;
        }
        let ghost ms = members(anomalies@, name);
        let situation = if k == 0 {
            "power_loss".to_string()
        } else if k == 1 {
            "thermal_anomaly".to_string()
        } else {
            "general".to_string()
        };
        let mut t: usize = 0;
        let mut found = false;
        while t < self.templates.len() && !found
            invariant
                t <= self.templates@.len(),
                self.templates@.len() == 2,
                self.templates@[0].situation_type@ == "power_loss"@,
                self.templates@[1].situation_type@ == "thermal_anomaly"@,
                situation@ == situation_name(k as int),
                k < 3,
                forall|a: int, b: int| 0 <= a < 3 && 0 <= b < 3 && situation_name(a) == situation_name(b) ==> a == b,
                found ==> t < 2 && t == k,
                !found ==> t <= k,
            decreases self.templates@.len() - t + (if found { 0int } else { 1int }),
        {
            if str_eq(self.templates[t].situation_type.as_str(), situation.as_str()) {
                proof {
                    assert(situation_name(t as int) == situation_name(k as int));
                }
                found = true;
            } else {
                proof {
                    if t == k as usize {
                        assert(self.templates@[t as int].situation_type@ == situation_name(k as int));
                    }
                }
                t = t + 1;
            }
        }
        let options = if found {
            let os = self.templates[t].default_options.clone();
            proof {
                assert(os@ =~= self.templates@[t as int].default_options@);
            }
            os
        } else {
            make_general_options()
        };
        let mut f: usize = 0;
        let mut found_rec = false;
        while f < options.len() && !found_rec
            invariant
                f <= options@.len(),
                options@.len() >= 2,
                options@[0].system_recommendation,
                found_rec ==> f == 0,
                !found_rec ==> f == 0,
            decreases options@.len() - f + (if found_rec { 0int } else { 1int }),
        {
            if options[f].system_recommendation {
                found_rec = true;
            } else {
                f = f + 1;
            }
        }
        let recommended_option = if found_rec { options[f].id.clone() } else { options[0].id.clone() };
        let mut id = concat2("rec-", situation.as_str());
        id.append("-");
        id.append(i64_to_decimal(floor_seconds(now)).as_str());
        let mut title = concat2("Anomalie ", situation.as_str());
        title.append(": ");
        title.append(u64_to_decimal(count).as_str());
        title.append(" système(s) affecté(s)");
        let time_pressure = match max_sev {
            AnomalySeverity::Emergency => TimePressure::Immediate,
            AnomalySeverity::Critical => TimePressure::Normal,
            _ => TimePressure::Extended,
        };
        let rec = CrewRecommendation {
            id,
            title,
            severity: max_sev,
            situation_summary: summary,
            affected_systems: comps,
            options,
            recommended_option,
            time_pressure,
            generated_at: now,
        };
        proof {
            let n = situation_name(k as int);
            assert(situation_name(0int) == "power_loss"@);
            assert(situation_name(1int) == "thermal_anomaly"@);
            assert(situation_name(2int) == "general"@);
            if k < 2 {
                assert(found);
                assert(t == k);
            }
            assert(rec.id@ == "rec-"@ + n + "-"@ + spec_signed_decimal(now / 1000));
            assert(rec.title@ == "Anomalie "@ + n + ": "@ + spec_decimal(ms.len()) + " système(s) affecté(s)"@);
            assert(rec.severity == max_severity(ms));
            assert(rec.situation_summary@ == joined_descriptions(ms));
            assert(rec.affected_systems@ == ms.map_values(|a: Anomaly| a.component));
            assert(n == "power_loss"@ ==> power_loss_options(rec.options@));
            assert(n == "thermal_anomaly"@ ==> thermal_options(rec.options@));
            assert(n == "general"@ ==> general_options(rec.options@));
            assert(rec.recommended_option@ == recommended_id(rec.options@));
            assert(rec.time_pressure == pressure_for(max_severity(ms)));
        }
        Some(rec)
    }

    /// The recommendations for the anomalies at time `now`: one for each
    /// situation (power, thermal, general) that has anomalies, in that
    /// order. The safe-mode level does not change them.
    pub fn generate_recommendation_at(&self, anomalies: &[Anomaly], safe_mode: &SafeModeLevel, now: i64) -> (r: Vec<CrewRecommendation>)
        ensures
            r@.len() == present_situations(anomalies@).len(),
            forall|i: int| 0 <= i < r@.len() ==> #[trigger] recommendation_matches(r@[i], present_situations(anomalies@)[i],
                members(anomalies@, present_situations(anomalies@)[i]), now),
    {
        let mut classes: Vec<u8> = Vec::new();
        let mut j: usize = 0;
        while j < anomalies.len()
            invariant
                j <= anomalies@.len(),
                classes@.len() == j,
                classified(anomalies@, classes@, j as int),
            decreases anomalies@.len() - j,
        {
            let c = situation_index(anomalies[j].description.as_str());
            let ghost before = classes@;
            classes.push(c);
            proof {
                assert forall|i: int| 0 <= i < j + 1 implies #[trigger] classes@[i] < 3
                    && situation_of(anomalies@[i].description@) == situation_name(classes@[i] as int) by {
                    if i < j {
                        assert(classes@[i] == before[i]);
                    }
                }
            }
            j = j + 1;
        }
        let mut recs: Vec<CrewRecommendation> = Vec::new();
        let p = self.recommendation_for(anomalies, &classes, 0, now);
        let t = self.recommendation_for(anomalies, &classes, 1, now);
        let g = self.recommendation_for(anomalies, &classes, 2, now);
        let ghost sp: Seq<Seq<char>> = if members(anomalies@, "power_loss"@).len() > 0 { seq!["power_loss"@] } else { Seq::empty() };
        let ghost st: Seq<Seq<char>> = if members(anomalies@, "thermal_anomaly"@).len() > 0 { seq!["thermal_anomaly"@] } else { Seq::empty() };
        let ghost sg: Seq<Seq<char>> = if members(anomalies@, "general"@).len() > 0 { seq!["general"@] } else { Seq::empty() };
        if let Some(x) = p {
            recs.push(x);
        }
        proof {
            assert(recs@.len() == sp.len());
            assert(forall|i: int| 0 <= i < recs@.len() ==> recommendation_matches(recs@[i], sp[i], members(anomalies@, sp[i]), now));
        }
        if let Some(x) = t {
            recs.push(x);
        }
        proof {
            let s2 = sp + st;
            assert(recs@.len() == s2.len());
            assert(forall|i: int| 0 <= i < recs@.len() ==> recommendation_matches(recs@[i], s2[i], members(anomalies@, s2[i]), now));
        }
        if let Some(x) = g {
            recs.push(x);
        }
        proof {
            let s3 = sp + st + sg;
            assert(s3 == present_situations(anomalies@));
            assert(recs@.len() == s3.len());
            assert(forall|i: int| 0 <= i < recs@.len() ==> recommendation_matches(recs@[i], s3[i], members(anomalies@, s3[i]), now));
        }
        recs
    }

    /// The recommendations for the anomalies, made now.
    pub fn generate_recommendation(&self, anomalies: &[Anomaly], safe_mode: &SafeModeLevel) -> (r: Vec<CrewRecommendation>)
        ensures
            r@.len() == present_situations(anomalies@).len(),
            exists|now: i64| in_clock_range(now) && forall|i: int| 0 <= i < r@.len() ==> #[trigger] recommendation_matches(r@[i],
                present_situations(anomalies@)[i], members(anomalies@, present_situations(anomalies@)[i]), now),
    {
        let now = now_millis();
        self.generate_recommendation_at(anomalies, safe_mode, now)
    }

    /// Whether a decision taken at `decision_time` came in time for an
    /// anomaly of this severity detected at `detection_time`.
    pub fn evaluate_decision_timeliness(&self, decision_time: i64, detection_time: i64, severity: &AnomalySeverity) -> (r: bool)
        requires
            in_clock_range(detection_time),
        ensures
            r == (decision_time <= detection_time + max_decision_delay_ms(*severity)),
    {
        let max_delay: i64 = match severity {
            AnomalySeverity::Emergency => 30_000,
            AnomalySeverity::Critical => 300_000,
            AnomalySeverity::Warning => 900_000,
            AnomalySeverity::Info => 3_600_000,
        };
        decision_time <= detection_time + max_delay
    }

    /// The situations that have a template, each with the severity from
    /// which it escalates, in order.
    pub closed spec fn templates(self) -> Seq<(Seq<char>, AnomalySeverity)> {
        self.templates@.map_values(|t: DecisionTemplate| (t.situation_type@, t.escalation_threshold))
    }

    /// The engine, with templates for power loss (escalated from Critical)
    /// and thermal anomalies (escalated from Warning).
    pub fn new() -> (s: Self)
        ensures
            s.templates() == seq![
                ("power_loss"@, AnomalySeverity::Critical),
                ("thermal_anomaly"@, AnomalySeverity::Warning),
            ],
    {
        let mut templates: Vec<DecisionTemplate> = Vec::new();
        templates.push(DecisionTemplate {
            situation_type: "power_loss".to_string(),
            default_options: make_power_loss_options(),
            escalation_threshold: AnomalySeverity::Critical,
        });
        templates.push(DecisionTemplate {
            situation_type: "thermal_anomaly".to_string(),
            default_options: make_thermal_options(),
            escalation_threshold: AnomalySeverity::Warning,
        });
        CrewDecisionSupport { templates }
    }
}

} // verus!
