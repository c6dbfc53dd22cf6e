//! Distributed diagnostics: merges the findings of the local node and of
//! its peers, judges the overall health, correlates anomalies seen by
//! several nodes, and checks peer heartbeats. Times are Unix milliseconds;
//! ratios are integers (basis points, thousandths).

use vstd::prelude::*;
use crate::clock::{now_millis, now_stamp, in_clock_range};
use crate::health::{Anomaly, AnomalySeverity, ComponentId, HealthStatus};
use crate::text::{spec_decimal, u64_to_decimal, concat2, str_eq};

verus! {

/// The finding of one node on one component.
#[derive(Debug)]
pub struct DiagnosisFinding {
    pub node_id: String,
    pub component: ComponentId,
    pub status: HealthStatus,
    /// Confidence in thousandths (0 to 1000).
    pub confidence_permille: u32,
    pub detail: String,
}

impl Clone for DiagnosisFinding {
    fn clone(&self) -> (r: Self)
        ensures
            r == *self,
    {
        DiagnosisFinding {
            node_id: self.node_id.clone(),
            component: self.component.clone(),
            status: self.status,
            confidence_permille: self.confidence_permille,
            detail: self.detail.clone(),
        }
    }
}

/// Result of a distributed diagnosis.
#[derive(Debug)]
pub struct DistributedDiagnosis {
    pub diagnosis_id: String,
    pub timestamp: i64,
    pub participating_nodes: Vec<String>,
    pub findings: Vec<DiagnosisFinding>,
    /// Share of nominal findings, in hundredths of a percent (rounded
    /// down); 10000 when there is no finding.
    pub overall_health_basis_points: u32,
    pub recommendations: Vec<String>,
    /// Identifiers of correlated anomalies.
    pub correlated_anomalies: Vec<String>,
}

/// A diagnosis request sent to a peer.
#[derive(Debug)]
pub struct DiagnosticQuery {
    pub query_id: String,
    pub from_node: String,
    pub target_components: Vec<ComponentId>,
    pub timeout_seconds: u32,
    pub priority: u8,
}

/// The answer of a peer to a diagnosis request.
#[derive(Debug)]
pub struct DiagnosticResponse {
    pub query_id: String,
    pub from_node: String,
    pub timestamp: i64,
    pub findings: Vec<DiagnosisFinding>,
    pub response_time_ms: u64,
}

/// An anomaly seen on the same component by several nodes.
#[derive(Debug)]
pub struct CorrelatedAnomaly {
    pub component_type: String,
    pub affected_nodes: Vec<String>,
    pub severity: AnomalySeverity,
    pub time_window_secs: u32,
    pub conclusion: String,
}

/// The distributed diagnostics engine of a node.
pub struct DistributedDiagnostics {
    local_node_id: String,
    query_timeout_ms: u32,
    correlation_window_seconds: u64,
}

/// The findings of the peers, response after response.
pub open spec fn peer_findings(rs: Seq<DiagnosticResponse>) -> Seq<DiagnosisFinding>
    decreases rs.len(),
{
    if rs.len() == 0 {
        Seq::empty()
    } else {
        peer_findings(rs.drop_last()) + rs.last().findings@
    }
}

/// The findings that are not nominal, in order.
pub open spec fn impaired_of(fs: Seq<DiagnosisFinding>) -> Seq<DiagnosisFinding>
    decreases fs.len(),
{
    if fs.len() == 0 {
        Seq::empty()
    } else if fs.last().status != HealthStatus::Nominal {
        impaired_of(fs.drop_last()).push(fs.last())
    } else {
        impaired_of(fs.drop_last())
    }
}

/// The maintenance advice for a finding that is not nominal.
pub open spec fn maintenance_text(f: DiagnosisFinding) -> Seq<char> {
    "Component "@ + f.component.0@ + " on "@ + f.node_id@ + " is "@ + f.status.spec_name() + " - recommend maintenance"@
}

/// The advice of a diagnosis over `fs`: safe mode when more than a
/// quarter (rounded down) of the findings are not nominal, maintenance of
/// each such component, and immediate action when fewer than 70% are
/// nominal.
pub open spec fn advice(fs: Seq<DiagnosisFinding>) -> Seq<Seq<char>> {
    let total = fs.len();
    let bad = impaired_of(fs);
    let healthy = total - bad.len();
    let high: Seq<Seq<char>> = if bad.len() > total / 4 {
        seq!["HIGH: Consider entering safe mode - multiple components degraded"@]
    } else {
        Seq::empty()
    };
    let critical: Seq<Seq<char>> = if total > 0 && healthy * 100 < 70 * total {
        seq!["CRITICAL: System health below 70% - immediate action required"@]
    } else {
        Seq::empty()
    };
    high + bad.map_values(|f: DiagnosisFinding| maintenance_text(f)) + critical
}

/// The participants: `nodes`, then each responding node not already in.
pub open spec fn participants_after(nodes: Seq<Seq<char>>, rs: Seq<DiagnosticResponse>) -> Seq<Seq<char>>
    decreases rs.len(),
{
    if rs.len() == 0 {
        nodes
    } else {
        let before = participants_after(nodes, rs.drop_last());
        if before.contains(rs.last().from_node@) {
            before
        } else {
            before.push(rs.last().from_node@)
        }
    }
}

/// The share of nominal findings in basis points (10000 when none).
pub open spec fn health_basis_points(fs: Seq<DiagnosisFinding>) -> int {
    if fs.len() == 0 {
        10000
    } else {
        (fs.len() - impaired_of(fs).len()) * 10000 / (fs.len() as int)
    }
}

/// The status a heartbeat check gives: nominal when every peer answered,
/// degraded when at most a quarter (rounded down) timed out, impaired
/// otherwise.
pub open spec fn heartbeat_status(peers: nat, timeouts: nat) -> HealthStatus {
    if timeouts == 0 {
        HealthStatus::Nominal
    } else if timeouts <= peers / 4 {
        HealthStatus::Degraded
    } else {
        HealthStatus::Impaired
    }
}

/// A correlation entry as plain values.
pub open spec fn entry_view(x: (String, String, i64, AnomalySeverity)) -> (Seq<char>, Seq<char>, i64, AnomalySeverity) {
    (x.0@, x.1@, x.2, x.3)
}

/// One anomaly as correlation sees it: the reporting node, the
/// component, the detection time and the severity.
pub open spec fn entry_of(node: Seq<char>, a: Anomaly) -> (Seq<char>, Seq<char>, i64, AnomalySeverity) {
    (node, a.component.0@, a.detected_at, a.severity)
}

/// The anomalies of all nodes, node after node.
pub open spec fn entries_of(by_node: Seq<(String, Vec<Anomaly>)>) -> Seq<(Seq<char>, Seq<char>, i64, AnomalySeverity)>
    decreases by_node.len(),
{
    if by_node.len() == 0 {
        Seq::empty()
    } else {
        entries_of(by_node.drop_last()) + by_node.last().1@.map_values(|a: Anomaly| entry_of(by_node.last().0@, a))
    }
}

/// The components that have anomalies, in the order they first appear.
pub open spec fn keys_of(es: Seq<(Seq<char>, Seq<char>, i64, AnomalySeverity)>) -> Seq<Seq<char>>
    decreases es.len(),
{
    if es.len() == 0 {
        Seq::empty()
    } else if keys_of(es.drop_last()).contains(es.last().1) {
        keys_of(es.drop_last())
    } else {
        keys_of(es.drop_last()).push(es.last().1)
    }
}

/// The anomalies on one component, in order.
pub open spec fn entries_for(es: Seq<(Seq<char>, Seq<char>, i64, AnomalySeverity)>, key: Seq<char>) -> Seq<(Seq<char>, Seq<char>, i64, AnomalySeverity)>
    decreases es.len(),
{
    if es.len() == 0 {
        Seq::empty()
    } else if es.last().1 == key {
        entries_for(es.drop_last(), key).push(es.last())
    } else {
        entries_for(es.drop_last(), key)
    }
}

/// The earliest detection time of anomalies (0 when there is none).
pub open spec fn earliest(es: Seq<(Seq<char>, Seq<char>, i64, AnomalySeverity)>) -> int
    decreases es.len(),
{
    if es.len() == 0 {
        0
    } else if es.len() == 1 || es.last().2 < earliest(es.drop_last()) {
        es.last().2 as int
    } else {
        earliest(es.drop_last())
    }
}

/// The latest detection time of anomalies (0 when there is none).
pub open spec fn latest(es: Seq<(Seq<char>, Seq<char>, i64, AnomalySeverity)>) -> int
    decreases es.len(),
{
    if es.len() == 0 {
        0
    } else if es.len() == 1 || es.last().2 > latest(es.drop_last()) {
        es.last().2 as int
    } else {
        latest(es.drop_last())
    }
}

/// The highest severity of anomalies (Info when there is none).
pub open spec fn worst(es: Seq<(Seq<char>, Seq<char>, i64, AnomalySeverity)>) -> AnomalySeverity
    decreases es.len(),
{
    if es.len() == 0 {
        AnomalySeverity::Info
    } else if es.last().3.level() > worst(es.drop_last()).level() {
        es.last().3
    } else {
        worst(es.drop_last())
    }
}

/// Whether the anomalies on a component are correlated: at least two,
/// all detected within `window_ms`.
pub open spec fn correlated(es: Seq<(Seq<char>, Seq<char>, i64, AnomalySeverity)>, window_ms: int) -> bool {
    es.len() >= 2 && latest(es) - earliest(es) <= window_ms
}

/// The components, among `keys`, whose anomalies are correlated.
pub open spec fn correlated_keys(keys: Seq<Seq<char>>, es: Seq<(Seq<char>, Seq<char>, i64, AnomalySeverity)>, window_ms: int) -> Seq<Seq<char>>
    decreases keys.len(),
{
    if keys.len() == 0 {
        Seq::empty()
    } else if correlated(entries_for(es, keys.last()), window_ms) {
        correlated_keys(keys.drop_last(), es, window_ms).push(keys.last())
    } else {
        correlated_keys(keys.drop_last(), es, window_ms)
    }
}

/// The correlation reported for the anomalies `es` on component `key`.
pub open spec fn correlation_matches(c: CorrelatedAnomaly, key: Seq<char>, es: Seq<(Seq<char>, Seq<char>, i64, AnomalySeverity)>) -> bool {
    let secs = (latest(es) - earliest(es)) / 1000;
    &&& c.component_type@ == key
    &&& c.affected_nodes@.map_values(|s: String| s@) == es.map_values(|e: (Seq<char>, Seq<char>, i64, AnomalySeverity)| e.0)
    &&& c.severity == worst(es)
    &&& c.time_window_secs == secs
    &&& c.conclusion@ == "Correlated "@ + key + " anomalies across "@ + spec_decimal(es.len()) + " nodes within "@
        + spec_decimal(secs as nat) + "s window"@
}

impl DistributedDiagnostics {
    #[verifier::type_invariant]
    spec fn bounded_window(self) -> bool {
        self.correlation_window_seconds <= 86_400
    }

    /// The local node's identifier.
    pub closed spec fn node_id(self) -> Seq<char> {
        self.local_node_id@
    }

    /// The time window within which anomalies are correlated, in seconds.
    pub closed spec fn window_seconds(self) -> u64 {
        self.correlation_window_seconds
    }

    /// An engine for the node `local_node_id`: 5 s query timeout, 300 s
    /// correlation window.
    pub fn new(local_node_id: String) -> (d: Self)
        ensures
            d.node_id() == local_node_id@,
            d.window_seconds() == 300,
    {
        DistributedDiagnostics { local_node_id, query_timeout_ms: 5000, correlation_window_seconds: 300 }
    }

    /// The diagnosis at `now` from the local findings and the peers'
    /// responses; `stamp` is the clock text that names it.
    pub fn run_distributed_diagnosis_at(
        &self,
        local_findings: &[DiagnosisFinding],
        peer_responses: &[DiagnosticResponse],
        now: i64,
        stamp: &str,
    ) -> (d: DistributedDiagnosis)
        ensures
            d.findings@ == local_findings@ + peer_findings(peer_responses@),
            d.overall_health_basis_points == health_basis_points(d.findings@),
            d.recommendations@.map_values(|s: String| s@) == advice(d.findings@),
            d.participating_nodes@.map_values(|s: String| s@) == participants_after(seq![self.node_id()], peer_responses@),
            d.diagnosis_id@ == "diag-"@ + self.node_id() + "-"@ + stamp@,
            d.timestamp == now,
            d.correlated_anomalies@.len() == 0,
    {
        let all = Self::merge_findings(local_findings, peer_responses);
        let total = all.len();
        let mut bad: usize = 0;
        let mut maintenance: Vec<String> = Vec::new();
        let mut i: usize = 0;
        while i < total
            invariant
                i <= total,
                total == all@.len(),
                bad == impaired_of(all@.take(i as int)).len(),
                bad <= i,
                maintenance@.map_values(|s: String| s@) == impaired_of(all@.take(i as int)).map_values(|f: DiagnosisFinding| maintenance_text(f)),
            decreases total - i,
        {
            let ghost prev = impaired_of(all@.take(i as int));
            proof {
                assert(all@.take(i + 1).drop_last() =~= all@.take(i as int));
            }
            let f = &all[i];
            if f.status != HealthStatus::Nominal {
                let mut t = concat2("Component ", f.component.0.as_str());
                t.append(" on ");
                t.append(f.node_id.as_str());
                t.append(" is ");
                t.append(f.status.name().as_str());
                t.append(" - recommend maintenance");
                let ghost before = maintenance@;
                maintenance.push(t);
                bad = bad + 1;
                proof {
                    assert(impaired_of(all@.take(i + 1)) == prev.push(*f));
                    assert(maintenance@.map_values(|s: String| s@) =~= before.map_values(|s: String| s@).push(maintenance_text(*f)));
                    assert(prev.push(*f).map_values(|f: DiagnosisFinding| maintenance_text(f)) =~= prev.map_values(
                        |f: DiagnosisFinding| maintenance_text(f),
                    ).push(maintenance_text(*f)));
                }
            }
            i = i + 1;
        }
        proof {
            assert(all@.take(total as int) =~= all@);
        }
        let healthy = total - bad;
        let mut recommendations: Vec<String> = Vec::new();
        if bad > total / 4 {
            recommendations.push("HIGH: Consider entering safe mode - multiple components degraded".to_string());
        }
        let ghost high = recommendations@;
        let mut j: usize = 0;
        while j < maintenance.len()
            invariant
                j <= maintenance@.len(),
                recommendations@ == high + maintenance@.take(j as int),
            decreases maintenance@.len() - j,
        {
            recommendations.push(maintenance[j].clone());
            j = j + 1;
            proof {
                assert(recommendations@ =~= high + maintenance@.take(j as int));
            }
        }
        proof {
            assert(maintenance@.take(maintenance@.len() as int) =~= maintenance@);
        }
        let ghost middle = recommendations@;
        if total > 0 && (healthy as u128) * 100 < 70 * (total as u128) {
            recommendations.push("CRITICAL: System health below 70% - immediate action required".to_string());
        }
        proof {
            assert(recommendations@.map_values(|s: String| s@) =~= advice(all@));
        }
        let overall_health_basis_points: u32 = if total > 0 {
            let q: u128 = (healthy as u128) * 10000 / (total as u128);
            proof {
                assert((healthy as int) * 10000 / (total as int) <= 10000) by (nonlinear_arith)
                    requires
                        healthy <= total,
                        total > 0,
                ;
            }
            q as u32
        } else {
            10000
        };
        let participating_nodes = self.participants(peer_responses);
        let mut diagnosis_id = concat2("diag-", self.local_node_id.as_str());
        diagnosis_id.append("-");
        diagnosis_id.append(stamp);
        DistributedDiagnosis {
            diagnosis_id,
            timestamp: now,
            participating_nodes,
            findings: all,
            overall_health_basis_points,
            recommendations,
            correlated_anomalies: Vec::new(),
        }
    }

    /// The diagnosis made now.
    pub fn run_distributed_diagnosis(&self, local_findings: &[DiagnosisFinding], peer_responses: &[DiagnosticResponse]) -> (d: DistributedDiagnosis)
        ensures
            d.findings@ == local_findings@ + peer_findings(peer_responses@),
            d.overall_health_basis_points == health_basis_points(d.findings@),
            d.recommendations@.map_values(|s: String| s@) == advice(d.findings@),
            d.participating_nodes@.map_values(|s: String| s@) == participants_after(seq![self.node_id()], peer_responses@),
            exists|stamp: Seq<char>| d.diagnosis_id@ == "diag-"@ + self.node_id() + "-"@ + stamp,
            in_clock_range(d.timestamp),
            d.correlated_anomalies@.len() == 0,
    {
        let stamp = now_stamp();
        let now = now_millis();
        self.run_distributed_diagnosis_at(local_findings, peer_responses, now, stamp.as_str())
    }

    /// The local findings followed by those of each response, in order.
    fn merge_findings(local_findings: &[DiagnosisFinding], peer_responses: &[DiagnosticResponse]) -> (all: Vec<DiagnosisFinding>)
        ensures
            all@ == local_findings@ + peer_findings(peer_responses@),
    {
        let mut all: Vec<DiagnosisFinding> = Vec::new();
        let mut i: usize = 0;
        while i < local_findings.len()
            invariant
                i <= local_findings@.len(),
                all@ == local_findings@.take(i as int),
            decreases local_findings@.len() - i,
        {
            all.push(local_findings[i].clone());
            i = i + 1;
            proof {
                assert(all@ =~= local_findings@.take(i as int));
            }
        }
        proof {
            assert(local_findings@.take(local_findings@.len() as int) =~= local_findings@);
        }
        let mut r: usize = 0;
        while r < peer_responses.len()
            invariant
                r <= peer_responses@.len(),
                all@ == local_findings@ + peer_findings(peer_responses@.take(r as int)),
            decreases peer_responses@.len() - r,
        {
            let fs = &peer_responses[r].findings;
            let ghost base = all@;
            let mut k: usize = 0;
            while k < fs.len()
                invariant
                    k <= fs@.len(),
                    all@ == base + fs@.take(k as int),
                decreases fs@.len() - k,
            {
                all.push(fs[k].clone());
                k = k + 1;
                proof {
                    assert(all@ =~= base + fs@.take(k as int));
                }
            }
            proof {
                assert(fs@.take(fs@.len() as int) =~= fs@);
                assert(peer_responses@.take(r + 1).drop_last() =~= peer_responses@.take(r as int));
                assert(all@ =~= local_findings@ + peer_findings(peer_responses@.take(r + 1)));
            }
            r = r + 1;
        }
        proof {
            assert(peer_responses@.take(peer_responses@.len() as int) =~= peer_responses@);
        }
        all
    }

    /// The local node, then each responding node not already listed.
    fn participants(&self, peer_responses: &[DiagnosticResponse]) -> (nodes: Vec<String>)
        ensures
            nodes@.map_values(|s: String| s@) == participants_after(seq![self.node_id()], peer_responses@),
    {
        let mut nodes: Vec<String> = Vec::new();
        nodes.push(self.local_node_id.clone());
        proof {
            assert(nodes@.map_values(|s: String| s@) =~= seq![self.node_id()]);
        }
        let mut r: usize = 0;
        while r < peer_responses.len()
            invariant
                r <= peer_responses@.len(),
                nodes@.map_values(|s: String| s@) == participants_after(seq![self.node_id()], peer_responses@.take(r as int)),
            decreases peer_responses@.len() - r,
        {
            let from = &peer_responses[r].from_node;
            let ghost seen = nodes@.map_values(|s: String| s@);
            let mut k: usize = 0;
            let mut found = false;
            while k < nodes.len() && !found
                invariant
                    k <= nodes@.len(),
                    seen == nodes@.map_values(|s: String| s@),
                    forall|m: int| 0 <= m < k ==> nodes@[m]@ != from@,
                    found ==> k < nodes@.len() && nodes@[k as int]@ == from@,
                decreases nodes@.len() - k + (if found { 0int } else { 1int }),
            {
                if str_eq(nodes[k].as_str(), from.as_str()) {
                    found = true;
                } else {
                    k = k + 1;
                }
            }
            proof {
                assert(peer_responses@.take(r + 1).drop_last() =~= peer_responses@.take(r as int));
                assert(peer_responses@.take(r + 1).last() == peer_responses@[r as int]);
                if found {
                    assert(seen[k as int] == from@);
                } else {
                    assert forall|m: int| 0 <= m < seen.len() implies seen[m] != from@ by {
                        assert(seen[m] == nodes@[m]@);
                    }
                }
            }
            if !found {
                nodes.push(from.clone());
                proof {
                    assert(nodes@.map_values(|s: String| s@) =~= seen.push(from@));
                }
            }
            r = r + 1;
        }
        proof {
            assert(peer_responses@.take(peer_responses@.len() as int) =~= peer_responses@);
        }
        nodes
    }

    /// The anomalies seen on the same component by several nodes within
    /// the correlation window, one report per component, in the order the
    /// components first appear. `anomalies_by_node` pairs each node with
    /// its anomalies.
    pub fn correlate_anomalies(&self, anomalies_by_node: &[(String, Vec<Anomaly>)]) -> (r: Vec<CorrelatedAnomaly>)
        ensures
            ({
                let es = entries_of(anomalies_by_node@);
                let ck = correlated_keys(keys_of(es), es, self.window_seconds() * 1000);
                &&& r@.len() == ck.len()
                &&& forall|i: int| 0 <= i < r@.len() ==> #[trigger] correlation_matches(r@[i], ck[i], entries_for(es, ck[i]))
            }),
    {
        proof {
            use_type_invariant(self);
        }
        let es = Self::flatten(anomalies_by_node);
        let ghost e = entries_of(anomalies_by_node@);
        let keys = Self::distinct_keys(&es);
        let ghost ks = keys_of(e);
        let window_ms: i128 = (self.correlation_window_seconds as i128) * 1000;
        let mut r: Vec<CorrelatedAnomaly> = Vec::new();
        let mut k: usize = 0;
        while k < keys.len()
            invariant
                k <= keys@.len(),
                keys@.map_values(|s: String| s@) == ks,
                es@.map_values(|x: (String, String, i64, AnomalySeverity)| entry_view(x)) == e,
                window_ms == self.window_seconds() * 1000,
                window_ms <= 86_400_000,
                r@.len() == correlated_keys(ks.take(k as int), e, window_ms as int).len(),
                forall|i: int| 0 <= i < r@.len() ==> #[trigger] correlation_matches(r@[i],
                    correlated_keys(ks.take(k as int), e, window_ms as int)[i],
                    entries_for(e, correlated_keys(ks.take(k as int), e, window_ms as int)[i])),
            decreases keys@.len() - k,
        {
            let ghost prev = correlated_keys(ks.take(k as int), e, window_ms as int);
            proof {
                assert(ks.take(k + 1).drop_last() =~= ks.take(k as int));
                assert(ks.take(k + 1).last() == keys@[k as int]@);
            }
            let c = Self::correlation_for(&es, &keys[k], window_ms);
            match c {
                Some(x) => {
                    r.push(x);
                    proof {
                        assert(correlated_keys(ks.take(k + 1), e, window_ms as int) == prev.push(keys@[k as int]@));
                    }
                },
                None => {},
            }
            k = k + 1;
        }
        proof {
            assert(ks.take(keys@.len() as int) =~= ks);
        }
        r
    }

    /// The anomalies of all nodes as correlation entries, node after node.
    fn flatten(by_node: &[(String, Vec<Anomaly>)]) -> (es: Vec<(String, String, i64, AnomalySeverity)>)
        ensures
            es@.map_values(|x: (String, String, i64, AnomalySeverity)| entry_view(x)) == entries_of(by_node@),
    {
        let mut es: Vec<(String, String, i64, AnomalySeverity)> = Vec::new();
        let mut n: usize = 0;
        while n < by_node.len()
            invariant
                n <= by_node@.len(),
                es@.map_values(|x: (String, String, i64, AnomalySeverity)| entry_view(x)) == entries_of(by_node@.take(n as int)),
            decreases by_node@.len() - n,
        {
            let node = &by_node[n].0;
            let list = &by_node[n].1;
            let ghost base = entries_of(by_node@.take(n as int));
            let mut a: usize = 0;
            while a < list.len()
                invariant
                    a <= list@.len(),
                    es@.map_values(|x: (String, String, i64, AnomalySeverity)| entry_view(x)) == base + list@.take(a as int).map_values(
                        |y: Anomaly| entry_of(node@, y),
                    ),
                decreases list@.len() - a,
            {
                let ghost before = es@;
                es.push((node.clone(), list[a].component.0.clone(), list[a].detected_at, list[a].severity));
                proof {
                    assert(es@.map_values(|x: (String, String, i64, AnomalySeverity)| entry_view(x)) =~= before.map_values(
                        |x: (String, String, i64, AnomalySeverity)| entry_view(x),
                    ).push(entry_of(node@, list@[a as int])));
                    assert(list@.take(a + 1).map_values(|y: Anomaly| entry_of(node@, y)) =~= list@.take(a as int).map_values(
                        |y: Anomaly| entry_of(node@, y),
                    ).push(entry_of(node@, list@[a as int])));
                }
                a = a + 1;
            }
            proof {
                assert(list@.take(list@.len() as int) =~= list@);
                assert(by_node@.take(n + 1).drop_last() =~= by_node@.take(n as int));
                assert(by_node@.take(n + 1).last() == by_node@[n as int]);
            }
            n = n + 1;
        }
        proof {
            assert(by_node@.take(by_node@.len() as int) =~= by_node@);
        }
        es
    }

    /// The components of the entries, in the order they first appear.
    fn distinct_keys(es: &Vec<(String, String, i64, AnomalySeverity)>) -> (keys: Vec<String>)
        ensures
            keys@.map_values(|s: String| s@) == keys_of(es@.map_values(|x: (String, String, i64, AnomalySeverity)| entry_view(x))),
    {
        let ghost e = es@.map_values(|x: (String, String, i64, AnomalySeverity)| entry_view(x));
        let mut keys: Vec<String> = Vec::new();
        let mut i: usize = 0;
        while i < es.len()
            invariant
                i <= es@.len(),
                e == es@.map_values(|x: (String, String, i64, AnomalySeverity)| entry_view(x)),
                keys@.map_values(|s: String| s@) == keys_of(e.take(i as int)),
            decreases es@.len() - i,
        {
            let key = &es[i].1;
            let ghost seen = keys@.map_values(|s: String| s@);
            let mut m: usize = 0;
            let mut found = false;
            while m < keys.len() && !found
                invariant
                    m <= keys@.len(),
                    seen == keys@.map_values(|s: String| s@),
                    forall|j: int| 0 <= j < m ==> keys@[j]@ != key@,
                    found ==> m < keys@.len() && keys@[m as int]@ == key@,
                decreases keys@.len() - m + (if found { 0int } else { 1int }),
            {
                if str_eq(keys[m].as_str(), key.as_str()) {
                    found = true;
                } else {
                    m = m + 1;
                }
            }
            proof {
                assert(e.take(i + 1).drop_last() =~= e.take(i as int));
                assert(e.take(i + 1).last() == e[i as int]);
                assert(e[i as int].1 == key@);
                if found {
                    assert(seen[m as int] == key@);
                } else {
                    assert forall|j: int| 0 <= j < seen.len() implies seen[j] != key@ by {
                        assert(seen[j] == keys@[j]@);
                    }
                }
            }
            if !found {
                keys.push(key.clone());
                proof {
                    assert(keys@.map_values(|s: String| s@) =~= seen.push(key@));
                }
            }
            i = i + 1;
        }
        proof {
            assert(e.take(es@.len() as int) =~= e);
        }
        keys
    }

    /// The correlation report for `key`, when its anomalies are correlated.
    fn correlation_for(es: &Vec<(String, String, i64, AnomalySeverity)>, key: &String, window_ms: i128) -> (r: Option<CorrelatedAnomaly>)
        requires
            0 <= window_ms <= 86_400_000,
        ensures
            ({
                let f = entries_for(es@.map_values(|x: (String, String, i64, AnomalySeverity)| entry_view(x)), key@);
                &&& !correlated(f, window_ms as int) ==> r is None
                &&& correlated(f, window_ms as int) ==> (r matches Some(c) && correlation_matches(c, key@, f))
            }),
    {
        let ghost e = es@.map_values(|x: (String, String, i64, AnomalySeverity)| entry_view(x));
        let mut count: u64 = 0;
        let mut nodes: Vec<String> = Vec::new();
        let mut earliest_t: i64 = 0;
        let mut latest_t: i64 = 0;
        let mut sev = AnomalySeverity::Info;
        let mut i: usize = 0;
        while i < es.len()
            invariant
                i <= es@.len(),
                e == es@.map_values(|x: (String, String, i64, AnomalySeverity)| entry_view(x)),
                count == entries_for(e.take(i as int), key@).len(),
                count <= i,
                nodes@.map_values(|s: String| s@) == entries_for(e.take(i as int), key@).map_values(
                    |x: (Seq<char>, Seq<char>, i64, AnomalySeverity)| x.0,
                ),
                count > 0 ==> earliest_t == earliest(entries_for(e.take(i as int), key@)),
                count > 0 ==> latest_t == latest(entries_for(e.take(i as int), key@)),
                count > 0 ==> earliest_t <= latest_t,
                sev == worst(entries_for(e.take(i as int), key@)),
            decreases es@.len() - i,
        {
            let ghost f0 = entries_for(e.take(i as int), key@);
            proof {
                assert(e.take(i + 1).drop_last() =~= e.take(i as int));
                assert(e.take(i + 1).last() == e[i as int]);
            }
            if str_eq(es[i].1.as_str(), key.as_str()) {
                let t = es[i].2;
                let s = es[i].3;
                proof {
                    assert(entries_for(e.take(i + 1), key@) == f0.push(e[i as int]));
                    assert(f0.push(e[i as int]).drop_last() =~= f0);
                    assert(f0.push(e[i as int]).map_values(|x: (Seq<char>, Seq<char>, i64, AnomalySeverity)| x.0) =~= f0.map_values(
                        |x: (Seq<char>, Seq<char>, i64, AnomalySeverity)| x.0,
                    ).push(e[i as int].0));
                }
                let ghost before = nodes@;
                nodes.push(es[i].0.clone());
                proof {
                    assert(nodes@.map_values(|s: String| s@) =~= before.map_values(|s: String| s@).push(e[i as int].0));
                }
                if count == 0 {
                    earliest_t = t;
                    latest_t = t;
                    sev = s;
                } else {
                    if t < earliest_t {
                        earliest_t = t;
                    }
                    if t > latest_t {
                        latest_t = t;
                    }
                    if s.rank() > sev.rank() {
                        sev = s;
                    }
                }
                count = count + 1;
            } else {
                proof {
                    assert(entries_for(e.take(i + 1), key@) == f0);
                }
            }
            i = i + 1;
        }
        proof {
            assert(e.take(es@.len() as int) =~= e);
        }
        if count < 2 {
            return None;
        }
        let span: i128 = (latest_t as i128) - (earliest_t as i128);
        if span > window_ms {
            return None;
        }
        let secs: i128 = span / 1000;
        let mut conclusion = concat2("Correlated ", key.as_str());
        conclusion.append(" anomalies across ");
        conclusion.append(u64_to_decimal(count).as_str());
        conclusion.append(" nodes within ");
        conclusion.append(u64_to_decimal(secs as u64).as_str());
        conclusion.append("s window");
        Some(CorrelatedAnomaly {
            component_type: key.clone(),
            affected_nodes: nodes,
            severity: sev,
            time_window_secs: secs as u32,
            conclusion,
        })
    }

    /// The finding of a heartbeat round over `peer_count` peers, of which
    /// `timeout_count` did not answer.
    pub fn heartbeat_diagnosis(&self, peer_count: usize, timeout_count: usize) -> (f: DiagnosisFinding)
        requires
            timeout_count <= peer_count,
        ensures
            f.node_id@ == self.node_id(),
            f.component.0@ == "network_connectivity"@,
            f.status == heartbeat_status(peer_count as nat, timeout_count as nat),
            f.confidence_permille == (if peer_count > 0 { (peer_count - timeout_count) * 1000 / (peer_count as int) } else { 1000 }),
            f.detail@ == "Heartbeat: "@ + spec_decimal((peer_count - timeout_count) as nat) + "/"@ + spec_decimal(
                peer_count as nat,
            ) + " peers responded ("@ + spec_decimal(timeout_count as nat) + " timeouts)"@,
    {
        let status = if timeout_count == 0 {
            HealthStatus::Nominal
        } else if timeout_count <= peer_count / 4 {
            HealthStatus::Degraded
        } else {
            HealthStatus::Impaired
        };
        let answered = peer_count - timeout_count;
        let confidence: u128 = if peer_count > 0 { (answered as u128) * 1000 / (peer_count as u128) } else { 1000 };
        proof {
            if peer_count > 0 {
                assert((answered as int) * 1000 / (peer_count as int) <= 1000) by (nonlinear_arith)
                    requires
                        answered <= peer_count,
                        peer_count > 0,
                ;
            }
        }
        let mut detail = concat2("Heartbeat: ", u64_to_decimal(answered as u64).as_str());
        detail.append("/");
        detail.append(u64_to_decimal(peer_count as u64).as_str());
        detail.append(" peers responded (");
        detail.append(u64_to_decimal(timeout_count as u64).as_str());
        detail.append(" timeouts)");
        DiagnosisFinding {
            node_id: self.local_node_id.clone(),
            component: ComponentId("network_connectivity".to_string()),
            status,
            confidence_permille: confidence as u32,
            detail,
        }
    }
}

} // verus!
