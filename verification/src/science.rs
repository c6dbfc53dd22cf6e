//! Science data pipeline: science packages received through DTN are
//! digested, checked for anomalies, classified, scored and kept for the
//! scientists. Times are Unix milliseconds.

use vstd::prelude::*;
use crate::clock::{now_millis, in_clock_range};
use crate::entropy::uuid_v4_string;
use crate::hashing::{sha3_256, hex_encode, spec_hex, spec_sha3_256};
use crate::text::{concat2, spec_decimal, u64_to_decimal};

verus! {

/// The instrument that produced the data.
#[derive(Debug, Clone, Copy, PartialEq, Eq, Structural)]
pub enum InstrumentType {
    MastCamera,
    SuperCam,
    PiXL,
    SHERLOC,
    MOXIE,
    MEDA,
    Seismometer,
    Magnetometer,
    WeatherStation,
    DrillSample,
    AtmosphericPressure,
    RadiationDose,
}

/// Who may see the data.
#[derive(Debug, Clone, Copy, PartialEq, Eq, Structural)]
pub enum DataClassification {
    Public,
    Internal,
    Confidential,
    ScientificSecret,
}

/// A science record.
#[derive(Debug)]
pub struct ScienceDataRecord {
    pub id: String,
    pub instrument: InstrumentType,
    pub source_asset: String,
    pub sol_number: u32,
    pub timestamp: i64,
    pub data_size_bytes: u64,
    pub compressed_size_bytes: u64,
    /// Original size over compressed size, in thousandths (rounded down);
    /// 1000 when the compressed size is zero.
    pub compression_ratio_permille: u64,
    pub sha3_256: String,
    /// Quality from 0 to 100.
    pub quality_score: u8,
    pub classification: DataClassification,
    pub metadata: Vec<(String, String)>,
    pub anomalies: Vec<String>,
    pub available_on_mars: bool,
}

/// Counts of the pipeline.
#[derive(Debug)]
pub struct PipelineStats {
    pub total_records: usize,
    pub total_bytes: u64,
    pub total_anomalies: u32,
    /// Mean quality in hundredths (rounded down); 0 with no record.
    pub average_quality_centi: u64,
    /// Records per instrument, in order of first appearance.
    pub by_instrument: Vec<(InstrumentType, u32)>,
    /// Records per classification, in order of first appearance.
    pub by_classification: Vec<(DataClassification, u32)>,
}

/// A tally of instruments with its counts as natural numbers.
pub open spec fn counted_i(t: Seq<(InstrumentType, u32)>) -> Seq<(InstrumentType, nat)> {
    t.map_values(|e: (InstrumentType, u32)| (e.0, e.1 as nat))
}

/// A tally of classifications with its counts as natural numbers.
pub open spec fn counted_c(t: Seq<(DataClassification, u32)>) -> Seq<(DataClassification, nat)> {
    t.map_values(|e: (DataClassification, u32)| (e.0, e.1 as nat))
}

/// Whether every byte is `v`.
pub open spec fn all_bytes(d: Seq<u8>, v: u8) -> bool {
    forall|i: int| 0 <= i < d.len() ==> d[i] == v
}

/// The distinct byte values of `d`, in order of first appearance.
pub open spec fn distinct_values(d: Seq<u8>) -> Seq<u8>
    decreases d.len(),
{
    if d.len() == 0 {
        Seq::empty()
    } else if distinct_values(d.drop_last()).contains(d.last()) {
        distinct_values(d.drop_last())
    } else {
        distinct_values(d.drop_last()).push(d.last())
    }
}

/// The anomalies seen in a package: all zero or all saturated (over 100
/// bytes), too short (under 10 bytes), or low entropy (over 1000 bytes
/// with fewer than 3 distinct values).
pub open spec fn anomalies_of(d: Seq<u8>) -> Seq<Seq<char>> {
    let a1: Seq<Seq<char>> = if all_bytes(d, 0) && d.len() > 100 {
        seq!["All-zero data — possible sensor failure"@]
    } else {
        Seq::empty()
    };
    let a2 = if all_bytes(d, 255) && d.len() > 100 {
        a1.push("All-saturated data — possible sensor overload"@)
    } else {
        a1
    };
    let a3 = if d.len() < 10 { a2.push("Data too short — possible transmission error"@) } else { a2 };
    let u = distinct_values(d).len();
    if d.len() > 1000 && u < 3 {
        a3.push("Low entropy: only "@ + spec_decimal(u) + " unique values in "@ + spec_decimal(d.len()) + " bytes"@)
    } else {
        a3
    }
}

/// The classification of data: drill samples and SHERLOC are secret,
/// SuperCam and PiXL confidential, other data with anomalies internal,
/// the rest public.
pub open spec fn classification_of(i: InstrumentType, anomaly_count: nat) -> DataClassification {
    match i {
        InstrumentType::DrillSample => DataClassification::ScientificSecret,
        InstrumentType::SHERLOC => DataClassification::ScientificSecret,
        InstrumentType::SuperCam => DataClassification::Confidential,
        InstrumentType::PiXL => DataClassification::Confidential,
        _ => if anomaly_count > 0 { DataClassification::Internal } else { DataClassification::Public },
    }
}

/// The quality score: 100, less 15 per anomaly, less 30 under 100 bytes,
/// plus 5 over 10000 bytes, kept within 0..=100.
pub open spec fn quality_of(len: nat, anomaly_count: nat) -> int {
    let s = 100 - 15 * anomaly_count - (if len < 100 { 30int } else { 0 }) + (if len > 10000 { 5int } else { 0 });
    if s < 0 { 0 } else if s > 100 { 100 } else { s }
}

/// The text before the first '-'.
pub open spec fn before_hyphen(s: Seq<char>) -> Seq<char>
    decreases s.len(),
{
    if s.len() == 0 {
        s
    } else if s[0] == '-' {
        Seq::empty()
    } else {
        seq![s[0]] + before_hyphen(s.drop_first())
    }
}

/// The number of records of each key, in order of first appearance.
pub open spec fn tally<K>(keys: Seq<K>) -> Seq<(K, nat)>
    decreases keys.len(),
{
    if keys.len() == 0 {
        Seq::empty()
    } else {
        let t = tally(keys.drop_last());
        let k = keys.last();
        let i = key_place(t, k);
        if i < t.len() {
            t.update(i, (k, t[i].1 + 1))
        } else {
            t.push((k, 1nat))
        }
    }
}

/// Where key `k` stands in a tally, or the length when absent.
pub open spec fn key_place<K>(t: Seq<(K, nat)>, k: K) -> int
    decreases t.len(),
{
    if t.len() == 0 {
        0
    } else if t[0].0 == k {
        0
    } else {
        1 + key_place(t.drop_first(), k)
    }
}

/// Whether one distinct-value list holds `v`.
fn holds_value(seen: &Vec<u8>, v: u8) -> (r: bool)
    ensures
        r == seen@.contains(v),
{
    let mut i: usize = 0;
    while i < seen.len()
        invariant
            i <= seen@.len(),
            forall|j: int| 0 <= j < i ==> seen@[j] != v,
        decreases seen@.len() - i,
    {
        if seen[i] == v {
            proof {
                assert(seen@[i as int] == v);
            }
            return true;
        }
        i = i + 1;
    }
    false
}

/// The distinct byte values of the data, in order of first appearance.
fn distinct_bytes(data: &[u8]) -> (seen: Vec<u8>)
    ensures
        seen@ == distinct_values(data@),
{
    let mut seen: Vec<u8> = Vec::new();
    let mut i: usize = 0;
    while i < data.len()
        invariant
            i <= data@.len(),
            seen@ == distinct_values(data@.take(i as int)),
        decreases data@.len() - i,
    {
        proof {
            assert(data@.take(i + 1).drop_last() =~= data@.take(i as int));
            assert(data@.take(i + 1).last() == data@[i as int]);
        }
        if !holds_value(&seen, data[i]) {
            seen.push(data[i]);
        }
        i = i + 1;
    }
    proof {
        assert(data@.take(data@.len() as int) =~= data@);
    }
    seen
}

/// Whether every byte of the data is `v`.
fn every_byte(data: &[u8], v: u8) -> (r: bool)
    ensures
        r == all_bytes(data@, v),
{
    let mut i: usize = 0;
    while i < data.len()
        invariant
            i <= data@.len(),
            forall|j: int| 0 <= j < i ==> data@[j] == v,
        decreases data@.len() - i,
    {
        if data[i] != v {
            return false;
        }
        i = i + 1;
    }
    true
}

/// The instrument's count in a tally, incremented.
fn count_instrument(t: &mut Vec<(InstrumentType, u32)>, k: InstrumentType)
    requires
        forall|j: int| 0 <= j < old(t)@.len() ==> (#[trigger] old(t)@[j]).1 < u32::MAX,
    ensures
        ({
            let v = counted_i(old(t)@);
            let i = key_place(v, k);
            counted_i(final(t)@) == if i < v.len() {
                v.update(i, (k, (v[i].1 + 1) as nat))
            } else {
                v.push((k, 1nat))
            }
        }),
{
    let ghost v = counted_i(t@);
    let mut i: usize = 0;
    while i < t.len() && t[i].0 != k
        invariant
            i <= t@.len(),
            v == counted_i(t@),
            forall|j: int| 0 <= j < i ==> (#[trigger] t@[j]).0 != k,
        decreases t@.len() - i,
    {
        i = i + 1;
    }
    proof {
        assert forall|j: int| 0 <= j < i implies (#[trigger] v[j]).0 != k by {
            assert(v[j].0 == t@[j].0);
        }
        lemma_key_place_at(v, k, i as int);
    }
    if i < t.len() {
        let n = t[i].1;
        t.set(i, (k, n + 1));
        proof {
            assert(counted_i(t@) =~= v.update(i as int, (k, v[i as int].1 + 1)));
        }
    } else {
        t.push((k, 1));
        proof {
            assert(counted_i(t@) =~= v.push((k, 1nat)));
        }
    }
}

/// The classification's count in a tally, incremented.
fn count_class(t: &mut Vec<(DataClassification, u32)>, k: DataClassification)
    requires
        forall|j: int| 0 <= j < old(t)@.len() ==> (#[trigger] old(t)@[j]).1 < u32::MAX,
    ensures
        ({
            let v = counted_c(old(t)@);
            let i = key_place(v, k);
            counted_c(final(t)@) == if i < v.len() {
                v.update(i, (k, (v[i].1 + 1) as nat))
            } else {
                v.push((k, 1nat))
            }
        }),
{
    let ghost v = counted_c(t@);
    let mut i: usize = 0;
    while i < t.len() && t[i].0 != k
        invariant
            i <= t@.len(),
            v == counted_c(t@),
            forall|j: int| 0 <= j < i ==> (#[trigger] t@[j]).0 != k,
        decreases t@.len() - i,
    {
        i = i + 1;
    }
    proof {
        assert forall|j: int| 0 <= j < i implies (#[trigger] v[j]).0 != k by {
            assert(v[j].0 == t@[j].0);
        }
        lemma_key_place_at(v, k, i as int);
    }
    if i < t.len() {
        let n = t[i].1;
        t.set(i, (k, n + 1));
        proof {
            assert(counted_c(t@) =~= v.update(i as int, (k, v[i as int].1 + 1)));
        }
    } else {
        t.push((k, 1));
        proof {
            assert(counted_c(t@) =~= v.push((k, 1nat)));
        }
    }
}

/// `key_place` is a place of the tally or its length.
pub proof fn lemma_key_place_bounds<K>(t: Seq<(K, nat)>, k: K)
    ensures
        0 <= key_place(t, k) <= t.len(),
    decreases t.len(),
{
    if t.len() > 0 {
        lemma_key_place_bounds(t.drop_first(), k);
    }
}

/// `key_place` is the first place holding the key.
pub proof fn lemma_key_place_at<K>(t: Seq<(K, nat)>, k: K, p: int)
    requires
        0 <= p <= t.len(),
        forall|j: int| 0 <= j < p ==> (#[trigger] t[j]).0 != k,
        p < t.len() ==> t[p].0 == k,
    ensures
        key_place(t, k) == p,
    decreases t.len(),
{
    if t.len() > 0 && p > 0 {
        assert(t[0].0 != k);
        assert forall|j: int| 0 <= j < p - 1 implies (#[trigger] t.drop_first()[j]).0 != k by {
            assert(t.drop_first()[j] == t[j + 1]);
        }
        if p < t.len() {
            assert(t.drop_first()[p - 1] == t[p]);
        }
        lemma_key_place_at(t.drop_first(), k, p - 1);
    }
}

/// The anomalies seen in a package.
pub fn detect_anomalies(data: &[u8]) -> (found: Vec<String>)
    ensures
        found@.map_values(|s: String| s@) == anomalies_of(data@),
{
    let mut found: Vec<String> = Vec::new();
    let n = data.len();
    if every_byte(data, 0) && n > 100 {
        found.push("All-zero data — possible sensor failure".to_string());
    }
    if every_byte(data, 255) && n > 100 {
        found.push("All-saturated data — possible sensor overload".to_string());
    }
    if n < 10 {
        found.push("Data too short — possible transmission error".to_string());
    }
    let ghost before = found@.map_values(|s: String| s@);
    let unique = distinct_bytes(data);
    if n > 1000 && unique.len() < 3 {
        let mut m = concat2("Low entropy: only ", u64_to_decimal(unique.len() as u64).as_str());
        m.append(" unique values in ");
        m.append(u64_to_decimal(n as u64).as_str());
        m.append(" bytes");
        found.push(m);
    }
    proof {
        assert(found@.map_values(|s: String| s@) =~= anomalies_of(data@));
    }
    found
}

/// The classification of data from an instrument with `anomaly_count`
/// anomalies.
pub fn classify_data(instrument: &InstrumentType, anomaly_count: usize) -> (c: DataClassification)
    ensures
        c == classification_of(*instrument, anomaly_count as nat),
{
    match instrument {
        InstrumentType::DrillSample => DataClassification::ScientificSecret,
        InstrumentType::SHERLOC => DataClassification::ScientificSecret,
        InstrumentType::SuperCam => DataClassification::Confidential,
        InstrumentType::PiXL => DataClassification::Confidential,
        _ => if anomaly_count > 0 { DataClassification::Internal } else { DataClassification::Public },
    }
}

/// The quality score of `len` bytes with `anomaly_count` anomalies.
pub fn compute_quality(len: usize, anomaly_count: usize) -> (q: u8)
    ensures
        q == quality_of(len as nat, anomaly_count as nat),
{
    let penalty: u128 = 15 * (anomaly_count as u128) + if len < 100 { 30 } else { 0 };
    let bonus: u128 = if len > 10000 { 5 } else { 0 };
    if penalty >= 100 + bonus {
        0
    } else {
        let s = 100 + bonus - penalty;
        if s > 100 { 100 } else { s as u8 }
    }
}

/// The text before the first '-'.
fn prefix_before_hyphen(s: &str) -> (p: String)
    ensures
        p@ == before_hyphen(s@),
{
    let cs = crate::text::chars_of(s);
    let mut out: Vec<char> = Vec::new();
    let mut i: usize = 0;
    while i < cs.len() && cs[i] != '-'
        invariant
            cs@ == s@,
            i <= cs@.len(),
            forall|j: int| 0 <= j < i ==> cs@[j] != '-',
            out@ == cs@.take(i as int),
        decreases cs@.len() - i,
    {
        out.push(cs[i]);
        proof {
            assert(out@ =~= cs@.take(i + 1));
        }
        i = i + 1;
    }
    proof {
        lemma_before_hyphen(s@, i as int);
    }
    crate::text::string_of(out.as_slice())
}

/// The text before the first '-' is the prefix up to the first hyphen.
pub proof fn lemma_before_hyphen(s: Seq<char>, p: int)
    requires
        0 <= p <= s.len(),
        forall|j: int| 0 <= j < p ==> s[j] != '-',
        p < s.len() ==> s[p] == '-',
    ensures
        before_hyphen(s) == s.take(p),
    decreases s.len(),
{
    if s.len() > 0 && p > 0 {
        assert forall|j: int| 0 <= j < p - 1 implies s.drop_first()[j] != '-' by {
            assert(s.drop_first()[j] == s[j + 1]);
        }
        if p < s.len() {
            assert(s.drop_first()[p - 1] == s[p]);
        }
        lemma_before_hyphen(s.drop_first(), p - 1);
        assert(seq![s[0]] + s.drop_first().take(p - 1) =~= s.take(p));
    } else if p == 0 {
        assert(s.take(0) =~= Seq::<char>::empty());
        if s.len() == 0 {
            assert(s =~= Seq::<char>::empty());
        }
    }
}

// ─── The pipeline ───

/// The record made of a package.
pub open spec fn ingested(
    r: ScienceDataRecord,
    data: Seq<u8>,
    instrument: InstrumentType,
    source: Seq<char>,
    sol: u32,
    uuid: Seq<char>,
    now: i64,
) -> bool {
    let n = data.len();
    let c = n * 2 / 5;
    let a = anomalies_of(data);
    &&& r.id@ == "SCI-"@ + before_hyphen(uuid)
    &&& r.instrument == instrument
    &&& r.source_asset@ == source
    &&& r.sol_number == sol
    &&& r.timestamp == now
    &&& r.data_size_bytes == n
    &&& r.compressed_size_bytes == c
    &&& r.compression_ratio_permille == if c > 0 { n * 1000 / c } else { 1000 }
    &&& r.sha3_256@ == spec_hex(spec_sha3_256(data))
    &&& r.quality_score == quality_of(n, a.len())
    &&& r.classification == classification_of(instrument, a.len())
    &&& r.metadata@.len() == 0
    &&& r.anomalies@.map_values(|s: String| s@) == a
    &&& !r.available_on_mars
}

/// The records of a sol, in order.
pub open spec fn of_sol(rs: Seq<ScienceDataRecord>, sol: u32) -> Seq<ScienceDataRecord>
    decreases rs.len(),
{
    if rs.len() == 0 {
        Seq::empty()
    } else if rs.last().sol_number == sol {
        of_sol(rs.drop_last(), sol).push(rs.last())
    } else {
        of_sol(rs.drop_last(), sol)
    }
}

/// The records of an instrument, in order.
pub open spec fn of_instrument(rs: Seq<ScienceDataRecord>, i: InstrumentType) -> Seq<ScienceDataRecord>
    decreases rs.len(),
{
    if rs.len() == 0 {
        Seq::empty()
    } else if rs.last().instrument == i {
        of_instrument(rs.drop_last(), i).push(rs.last())
    } else {
        of_instrument(rs.drop_last(), i)
    }
}

/// The records with anomalies, in order.
pub open spec fn with_anomalies(rs: Seq<ScienceDataRecord>) -> Seq<ScienceDataRecord>
    decreases rs.len(),
{
    if rs.len() == 0 {
        Seq::empty()
    } else if rs.last().anomalies@.len() > 0 {
        with_anomalies(rs.drop_last()).push(rs.last())
    } else {
        with_anomalies(rs.drop_last())
    }
}

/// The sum of the quality scores.
pub open spec fn quality_sum(rs: Seq<ScienceDataRecord>) -> nat
    decreases rs.len(),
{
    if rs.len() == 0 {
        0
    } else {
        quality_sum(rs.drop_last()) + rs.last().quality_score as nat
    }
}

/// The science pipeline.
pub struct SciencePipeline {
    records: Vec<ScienceDataRecord>,
    total_bytes_received: u64,
    total_anomalies: u32,
    classification_counts: Vec<(DataClassification, u32)>,
}

impl SciencePipeline {
    /// The records, in order of arrival.
    pub closed spec fn records(self) -> Seq<ScienceDataRecord> {
        self.records@
    }

    /// Bytes received.
    pub closed spec fn total_bytes(self) -> u64 {
        self.total_bytes_received
    }

    /// Anomalies found.
    pub closed spec fn total_anomalies(self) -> u32 {
        self.total_anomalies
    }

    /// Records per classification, in order of first appearance.
    pub closed spec fn class_counts(self) -> Seq<(DataClassification, nat)> {
        counted_c(self.classification_counts@)
    }

    /// Whether no classification count is at its limit.
    pub closed spec fn counts_below_limit(self) -> bool {
        forall|j: int| 0 <= j < self.classification_counts@.len() ==> (#[trigger] self.classification_counts@[j]).1 < u32::MAX
    }

    /// An empty pipeline.
    pub fn new() -> (p: Self)
        ensures
            p.records().len() == 0,
            p.total_bytes() == 0,
            p.total_anomalies() == 0,
            p.class_counts().len() == 0,
            p.counts_below_limit(),
    {
        SciencePipeline {
            records: Vec::new(),
            total_bytes_received: 0,
            total_anomalies: 0,
            classification_counts: Vec::new(),
        }
    }

    /// Takes in a package at time `now`, with `uuid` for its identifier:
    /// digests, checks, classifies and scores it; returns the record's
    /// identifier ("SCI-" and the UUID's first group).
    pub fn ingest_at(
        &mut self,
        data: &[u8],
        instrument: InstrumentType,
        source: &str,
        sol: u32,
        uuid: &str,
        now: i64,
    ) -> (r: Result<String, String>)
        requires
            old(self).total_bytes() + data@.len() <= u64::MAX,
            old(self).total_anomalies() + 4 <= u32::MAX,
            old(self).counts_below_limit(),
        ensures
            r matches Ok(id) && id@ == "SCI-"@ + before_hyphen(uuid@),
            final(self).records().len() == old(self).records().len() + 1,
            final(self).records().drop_last() == old(self).records(),
            ingested(final(self).records().last(), data@, instrument, source@, sol, uuid@, now),
            final(self).total_bytes() == old(self).total_bytes() + data@.len(),
            final(self).total_anomalies() == old(self).total_anomalies() + anomalies_of(data@).len(),
            ({
                let k = classification_of(instrument, anomalies_of(data@).len());
                let t = old(self).class_counts();
                let i = key_place(t, k);
                final(self).class_counts() == if i < t.len() { t.update(i, (k, (t[i].1 + 1) as nat)) } else { t.push((k, 1nat)) }
            }),
    {
        let digest = sha3_256(data);
        let hash = hex_encode(digest.as_slice());
        let n = data.len();
        let compressed = ((n as u128) * 2 / 5) as u64;
        proof {
            if compressed > 0 {
                let c = compressed as int;
                let m = n as int;
                assert(m < 5 * c) by (nonlinear_arith)
                    requires
                        c == m * 2 / 5,
                        c >= 1,
                        m >= 0;
                assert(m * 1000 / c < 5000) by (nonlinear_arith)
                    requires
                        m < 5 * c,
                        c >= 1,
                        m >= 0;
            }
        }
        let ratio: u64 = if compressed > 0 { ((n as u128) * 1000 / (compressed as u128)) as u64 } else { 1000 };
        let anomalies = detect_anomalies(data);
        let proof_count = anomalies.len();
        proof {
            assert(anomalies@.len() == anomalies_of(data@).len());
            assert(anomalies_of(data@).len() <= 4);
        }
        let classification = classify_data(&instrument, anomalies.len());
        let quality = compute_quality(n, anomalies.len());
        let id = concat2("SCI-", prefix_before_hyphen(uuid).as_str());
        let record = ScienceDataRecord {
            id: id.clone(),
            instrument,
            source_asset: source.to_string(),
            sol_number: sol,
            timestamp: now,
            data_size_bytes: n as u64,
            compressed_size_bytes: compressed,
            compression_ratio_permille: ratio,
            sha3_256: hash,
            quality_score: quality,
            classification,
            metadata: Vec::new(),
            anomalies,
            available_on_mars: false,
        };
        self.total_bytes_received = self.total_bytes_received + n as u64;
        self.total_anomalies = self.total_anomalies + proof_count as u32;
        count_class(&mut self.classification_counts, classification);
        let ghost before = self.records@;
        self.records.push(record);
        proof {
            assert(self.records@.drop_last() =~= before);
            let r = self.records@.last();
            let a = anomalies_of(data@);
            assert(r.anomalies@.map_values(|s: String| s@) == a);
            assert(r.anomalies@.len() == a.len());
            assert(r.compressed_size_bytes == n * 2 / 5);
            assert(r.quality_score == quality_of(n as nat, a.len()));
            assert(r.classification == classification_of(instrument, a.len()));
        }
        Ok(id)
    }

    /// Takes in a package now.
    pub fn ingest(&mut self, data: &[u8], instrument: InstrumentType, source: &str, sol: u32) -> (r: Result<String, String>)
        requires
            old(self).total_bytes() + data@.len() <= u64::MAX,
            old(self).total_anomalies() + 4 <= u32::MAX,
            old(self).counts_below_limit(),
        ensures
            r matches Ok(id) && id@ == final(self).records().last().id@,
            final(self).records().len() == old(self).records().len() + 1,
            final(self).records().drop_last() == old(self).records(),
            exists|uuid: Seq<char>, now: i64| in_clock_range(now)
                && #[trigger] ingested(final(self).records().last(), data@, instrument, source@, sol, uuid, now)
                && (r matches Ok(id) && id@ == "SCI-"@ + before_hyphen(uuid)),
            final(self).total_bytes() == old(self).total_bytes() + data@.len(),
            final(self).total_anomalies() == old(self).total_anomalies() + anomalies_of(data@).len(),
            ({
                let k = classification_of(instrument, anomalies_of(data@).len());
                let t = old(self).class_counts();
                let i = key_place(t, k);
                final(self).class_counts() == if i < t.len() { t.update(i, (k, (t[i].1 + 1) as nat)) } else { t.push((k, 1nat)) }
            }),
    {
        let uuid = uuid_v4_string();
        let now = now_millis();
        let r = self.ingest_at(data, instrument, source, sol, uuid.as_str(), now);
        proof {
            assert(ingested(self.records().last(), data@, instrument, source@, sol, uuid@, now));
        }
        r
    }

    /// The records of a sol, in order.
    pub fn records_by_sol(&self, sol: u32) -> (r: Vec<&ScienceDataRecord>)
        ensures
            r@.len() == of_sol(self.records(), sol).len(),
            forall|k: int| 0 <= k < r@.len() ==> *r@[k] == #[trigger] of_sol(self.records(), sol)[k],
    {
        let rs = &self.records;
        let mut out: Vec<&ScienceDataRecord> = Vec::new();
        let mut i: usize = 0;
        while i < rs.len()
            invariant
                i <= rs@.len(),
                out@.len() == of_sol(rs@.take(i as int), sol).len(),
                forall|k: int| 0 <= k < out@.len() ==> *out@[k] == #[trigger] of_sol(rs@.take(i as int), sol)[k],
            decreases rs@.len() - i,
        {
            proof {
                assert(rs@.take(i + 1).drop_last() =~= rs@.take(i as int));
                assert(rs@.take(i + 1).last() == rs@[i as int]);
            }
            if rs[i].sol_number == sol {
                out.push(&rs[i]);
            }
            i = i + 1;
        }
        proof {
            assert(rs@.take(rs@.len() as int) =~= rs@);
        }
        out
    }

    /// The records of an instrument, in order.
    pub fn records_by_instrument(&self, instrument: &InstrumentType) -> (r: Vec<&ScienceDataRecord>)
        ensures
            r@.len() == of_instrument(self.records(), *instrument).len(),
            forall|k: int| 0 <= k < r@.len() ==> *r@[k] == #[trigger] of_instrument(self.records(), *instrument)[k],
    {
        let rs = &self.records;
        let mut out: Vec<&ScienceDataRecord> = Vec::new();
        let mut i: usize = 0;
        while i < rs.len()
            invariant
                i <= rs@.len(),
                out@.len() == of_instrument(rs@.take(i as int), *instrument).len(),
                forall|k: int| 0 <= k < out@.len() ==> *out@[k] == #[trigger] of_instrument(rs@.take(i as int), *instrument)[k],
            decreases rs@.len() - i,
        {
            proof {
                assert(rs@.take(i + 1).drop_last() =~= rs@.take(i as int));
                assert(rs@.take(i + 1).last() == rs@[i as int]);
            }
            if rs[i].instrument == *instrument {
                out.push(&rs[i]);
            }
            i = i + 1;
        }
        proof {
            assert(rs@.take(rs@.len() as int) =~= rs@);
        }
        out
    }

    /// The records with anomalies, in order.
    pub fn anomalous_records(&self) -> (r: Vec<&ScienceDataRecord>)
        ensures
            r@.len() == with_anomalies(self.records()).len(),
            forall|k: int| 0 <= k < r@.len() ==> *r@[k] == #[trigger] with_anomalies(self.records())[k],
    {
        let rs = &self.records;
        let mut out: Vec<&ScienceDataRecord> = Vec::new();
        let mut i: usize = 0;
        while i < rs.len()
            invariant
                i <= rs@.len(),
                out@.len() == with_anomalies(rs@.take(i as int)).len(),
                forall|k: int| 0 <= k < out@.len() ==> *out@[k] == #[trigger] with_anomalies(rs@.take(i as int))[k],
            decreases rs@.len() - i,
        {
            proof {
                assert(rs@.take(i + 1).drop_last() =~= rs@.take(i as int));
                assert(rs@.take(i + 1).last() == rs@[i as int]);
            }
            if rs[i].anomalies.len() > 0 {
                out.push(&rs[i]);
            }
            i = i + 1;
        }
        proof {
            assert(rs@.take(rs@.len() as int) =~= rs@);
        }
        out
    }

    /// Counts of the pipeline.
    pub fn stats(&self) -> (st: PipelineStats)
        requires
            self.records().len() <= u32::MAX,
        ensures
            st.total_records == self.records().len(),
            st.total_bytes == self.total_bytes(),
            st.total_anomalies == self.total_anomalies(),
            st.average_quality_centi == if self.records().len() == 0 { 0 } else {
                quality_sum(self.records()) * 100 / self.records().len()
            },
            counted_i(st.by_instrument@)
                == tally(self.records().map_values(|r: ScienceDataRecord| r.instrument)),
            counted_c(st.by_classification@) == self.class_counts(),
    {
        let rs = &self.records;
        let ghost keys = rs@.map_values(|r: ScienceDataRecord| r.instrument);
        let mut sum: u64 = 0;
        let mut by_instrument: Vec<(InstrumentType, u32)> = Vec::new();
        let mut i: usize = 0;
        while i < rs.len()
            invariant
                i <= rs@.len(),
                rs@.len() <= u32::MAX,
                keys == rs@.map_values(|r: ScienceDataRecord| r.instrument),
                sum == quality_sum(rs@.take(i as int)),
                sum <= 255 * i,
                counted_i(by_instrument@) == tally(keys.take(i as int)),
                forall|j: int| 0 <= j < by_instrument@.len() ==> (#[trigger] by_instrument@[j]).1 <= i,
            decreases rs@.len() - i,
        {
            proof {
                assert(rs@.take(i + 1).drop_last() =~= rs@.take(i as int));
                assert(rs@.take(i + 1).last() == rs@[i as int]);
                assert(keys.take(i + 1).drop_last() =~= keys.take(i as int));
                assert(keys.take(i + 1).last() == rs@[i as int].instrument);
            }
            sum = sum + rs[i].quality_score as u64;
            let ghost bi = by_instrument@;
            proof {
                assert forall|j: int| 0 <= j < bi.len() implies (#[trigger] bi[j]).1 < u32::MAX by {
                    assert(bi[j].1 <= i);
                }
            }
            count_instrument(&mut by_instrument, rs[i].instrument);
            proof {
                let vo = counted_i(bi);
                let vn = counted_i(by_instrument@);
                let p = key_place(vo, rs@[i as int].instrument);
                let kk = rs@[i as int].instrument;
                lemma_key_place_bounds(vo, kk);
                assert(vn == if p < vo.len() { vo.update(p, (kk, (vo[p].1 + 1) as nat)) } else { vo.push((kk, 1nat)) });
                assert(vo.len() == bi.len());
                assert forall|j: int| 0 <= j < vo.len() implies (#[trigger] vo[j]).1 <= i by {
                    assert(vo[j].1 == bi[j].1);
                }
                assert forall|j: int| 0 <= j < vn.len() implies (#[trigger] vn[j]).1 <= i + 1 by {
                    if p < vo.len() {
                        if j != p {
                            assert(vn[j] == vo[j]);
                        }
                    } else if j < vo.len() {
                        assert(vn[j] == vo[j]);
                    }
                }
                assert forall|j: int| 0 <= j < by_instrument@.len() implies (#[trigger] by_instrument@[j]).1 <= i + 1 by {
                    assert(vn[j].1 == by_instrument@[j].1);
                }
            }
            i = i + 1;
        }
        proof {
            assert(rs@.take(rs@.len() as int) =~= rs@);
            assert(keys.take(rs@.len() as int) =~= keys);
        }
        let avg: u64 = if rs.len() == 0 { 0 } else { sum * 100 / (rs.len() as u64) };
        let mut by_class: Vec<(DataClassification, u32)> = Vec::new();
        let mut k: usize = 0;
        while k < self.classification_counts.len()
            invariant
                k <= self.classification_counts@.len(),
                by_class@ == self.classification_counts@.take(k as int),
            decreases self.classification_counts@.len() - k,
        {
            by_class.push(self.classification_counts[k]);
            proof {
                assert(by_class@ =~= self.classification_counts@.take(k + 1));
            }
            k = k + 1;
        }
        proof {
            assert(self.classification_counts@.take(self.classification_counts@.len() as int) =~= self.classification_counts@);
        }
        PipelineStats {
            total_records: rs.len(),
            total_bytes: self.total_bytes_received,
            total_anomalies: self.total_anomalies,
            average_quality_centi: avg,
            by_instrument,
            by_classification: by_class,
        }
    }
}

} // verus!
