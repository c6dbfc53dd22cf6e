//! Processing of science packages arriving from the rovers: integrity
//! check against the announced digest, quality score, anomalies, and
//! compression statistics. Times are Unix milliseconds; ratios are in
//! thousandths.

use vstd::prelude::*;
use crate::clock::{now_millis, in_clock_range, div_trunc, whole_seconds};
use crate::hashing::{sha3_256, hex_encode, spec_hex, spec_sha3_256};
use crate::science::all_bytes;
use crate::text::{concat2, str_eq, spec_signed_decimal, i64_to_decimal};

verus! {

/// Kind of science data.
#[derive(Debug, Clone, Copy, PartialEq, Eq, Structural)]
pub enum ScienceDataType {
    Image,
    Spectrometer,
    DrillSample,
    WeatherStation,
    Seismometer,
    Magnetometer,
    AtmosphericPressure,
    RadiationDose,
}

impl ScienceDataType {
    /// The name of the kind.
    pub open spec fn spec_name(self) -> Seq<char> {
        match self {
            ScienceDataType::Image => "Image"@,
            ScienceDataType::Spectrometer => "Spectrometer"@,
            ScienceDataType::DrillSample => "DrillSample"@,
            ScienceDataType::WeatherStation => "WeatherStation"@,
            ScienceDataType::Seismometer => "Seismometer"@,
            ScienceDataType::Magnetometer => "Magnetometer"@,
            ScienceDataType::AtmosphericPressure => "AtmosphericPressure"@,
            ScienceDataType::RadiationDose => "RadiationDose"@,
        }
    }

    /// The name of the kind.
    pub fn name(&self) -> (n: &'static str)
        ensures
            n@ == self.spec_name(),
    {
        match self {
            ScienceDataType::Image => "Image",
            ScienceDataType::Spectrometer => "Spectrometer",
            ScienceDataType::DrillSample => "DrillSample",
            ScienceDataType::WeatherStation => "WeatherStation",
            ScienceDataType::Seismometer => "Seismometer",
            ScienceDataType::Magnetometer => "Magnetometer",
            ScienceDataType::AtmosphericPressure => "AtmosphericPressure",
            ScienceDataType::RadiationDose => "RadiationDose",
        }
    }
}

/// A science package as announced by its sender.
#[derive(Debug)]
pub struct ScienceDataPackage {
    pub id: String,
    pub data_type: ScienceDataType,
    pub source_asset: String,
    pub timestamp: i64,
    pub sol_number: u32,
    pub compressed_size_bytes: u64,
    pub uncompressed_size_bytes: u64,
    pub compression_ratio_permille: u64,
    /// Lower-case hex of the SHA3-256 of the raw data.
    pub hash: String,
    pub metadata: Vec<(String, String)>,
    pub priority: u8,
}

/// Where processing stands.
#[derive(Debug, PartialEq, Eq)]
pub enum ProcessingStatus {
    Received,
    Decompressing,
    Analyzing,
    Completed,
    Failed { reason: String },
}

/// The outcome of processing a package.
#[derive(Debug)]
pub struct ProcessingResult {
    pub package_id: String,
    pub status: ProcessingStatus,
    pub processing_time_ms: u64,
    pub output_path: String,
    /// From 0 to 100.
    pub quality_score: u8,
    pub anomalies_detected: Vec<String>,
}

/// Compression statistics over the processed packages.
#[derive(Debug, Clone, Copy, PartialEq, Eq, Structural)]
pub struct CompressionStats {
    pub total_compressed_bytes: u64,
    pub total_uncompressed_bytes: u64,
    /// Total uncompressed over total compressed (at least 1), in
    /// thousandths, rounded down.
    pub average_ratio_permille: u128,
    pub best_ratio_permille: u64,
    /// 0 until a package is processed.
    pub worst_ratio_permille: u64,
    pub packages_processed: u32,
}

impl Default for CompressionStats {
    fn default() -> (s: Self)
        ensures
            s == (CompressionStats {
                total_compressed_bytes: 0,
                total_uncompressed_bytes: 0,
                average_ratio_permille: 0,
                best_ratio_permille: 0,
                worst_ratio_permille: 0,
                packages_processed: 0,
            }),
    {
        CompressionStats {
            total_compressed_bytes: 0,
            total_uncompressed_bytes: 0,
            average_ratio_permille: 0,
            best_ratio_permille: 0,
            worst_ratio_permille: 0,
            packages_processed: 0,
        }
    }
}

/// Whole days from `ts` to `now`, truncated toward zero.
pub open spec fn age_days(now: i64, ts: i64) -> int {
    div_trunc(div_trunc(now - ts, 1000), 86400)
}

/// The quality of a package: 100, less 20 under 100 bytes, less 10
/// without metadata, plus 5 above a 10:1 compression ratio, within 0..=100.
pub open spec fn package_quality(len: nat, has_metadata: bool, ratio_permille: u64) -> int {
    let s = 100 - (if len < 100 { 20int } else { 0 }) - (if !has_metadata { 10int } else { 0 })
        + (if ratio_permille > 10000 { 5int } else { 0 });
    if s > 100 { 100 } else if s < 0 { 0 } else { s }
}

/// The anomalies of a package at `now`: all zero, all 255, or older than
/// a year.
pub open spec fn package_anomalies(d: Seq<u8>, ts: i64, now: i64) -> Seq<Seq<char>> {
    let a1: Seq<Seq<char>> = if all_bytes(d, 0) {
        seq!["All-zero data detected — possible sensor failure"@]
    } else {
        Seq::empty()
    };
    let a2 = if all_bytes(d, 255) { a1.push("All-255 data detected — possible saturation"@) } else { a1 };
    if age_days(now, ts) > 365 {
        a2.push("Data age: "@ + spec_signed_decimal(age_days(now, ts)) + " days — possible timestamp error"@)
    } else {
        a2
    }
}

/// Whether every byte is `v`.
fn every_byte_is(data: &[u8], v: u8) -> (r: bool)
    ensures
        r == all_bytes(data@, v),
{
    let mut i: usize = 0;
    while i < data.len()
        invariant
            i <= data@.len(),
            forall|j: int| 0 <= j < i ==> data@[j] == v,
        decreases data@.len() - i,
    {
        if data[i] != v {
            return false;
        }
        i = i + 1;
    }
    true
}

/// The processor.
pub struct DataProcessor {
    processed_packages: Vec<ProcessingResult>,
    total_bytes_processed: u64,
    compression_stats: CompressionStats,
}

/// What processing `package` with `raw` at `now`, taking `elapsed_ms`,
/// gives: a package whose data does not match its digest fails and
/// changes nothing; one that matches is completed, scored and counted.
pub open spec fn processed_at(
    p0: DataProcessor,
    p1: DataProcessor,
    package: ScienceDataPackage,
    raw: Seq<u8>,
    now: i64,
    elapsed_ms: u64,
    r: ProcessingResult,
) -> bool {
    &&& r.package_id == package.id
    &&& r.processing_time_ms == elapsed_ms
    &&& spec_hex(spec_sha3_256(raw)) != package.hash@ ==> {
        &&& r.status matches ProcessingStatus::Failed { reason } && reason@ == "Hash mismatch"@
        &&& r.output_path@.len() == 0
        &&& r.quality_score == 0
        &&& r.anomalies_detected@.map_values(|s: String| s@) == seq!["Data integrity compromised"@]
        &&& p1.processed() == p0.processed()
        &&& p1.bytes_processed() == p0.bytes_processed()
        &&& p1.stats() == p0.stats()
    }
    &&& spec_hex(spec_sha3_256(raw)) == package.hash@ ==> {
        let ratio = package.compression_ratio_permille;
        let st = p0.stats();
        let tc = st.total_compressed_bytes + package.compressed_size_bytes;
        let tu = st.total_uncompressed_bytes + package.uncompressed_size_bytes;
        &&& r.status == ProcessingStatus::Completed
        &&& r.output_path@ == "/data/science/"@ + package.data_type.spec_name() + "/"@ + package.id@
        &&& r.quality_score == package_quality(raw.len(), package.metadata@.len() > 0, ratio)
        &&& r.anomalies_detected@.map_values(|s: String| s@) == package_anomalies(raw, package.timestamp, now)
        &&& p1.processed().len() == p0.processed().len() + 1
        &&& p1.processed().drop_last() == p0.processed()
        &&& p1.processed().last().package_id == r.package_id
        &&& p1.processed().last().status == r.status
        &&& p1.processed().last().output_path == r.output_path
        &&& p1.processed().last().quality_score == r.quality_score
        &&& p1.bytes_processed() == p0.bytes_processed() + package.uncompressed_size_bytes
        &&& p1.stats() == (CompressionStats {
            total_compressed_bytes: tc as u64,
            total_uncompressed_bytes: tu as u64,
            average_ratio_permille: (tu * 1000 / (if tc > 1 { tc } else { 1 })) as u128,
            best_ratio_permille: if ratio > st.best_ratio_permille { ratio } else { st.best_ratio_permille },
            worst_ratio_permille: if ratio < st.worst_ratio_permille || st.worst_ratio_permille == 0 {
                ratio
            } else {
                st.worst_ratio_permille
            },
            packages_processed: (st.packages_processed + 1) as u32,
        })
    }
}

impl DataProcessor {
    /// The packages processed, in order.
    pub closed spec fn processed(self) -> Seq<ProcessingResult> {
        self.processed_packages@
    }

    /// Uncompressed bytes processed.
    pub closed spec fn bytes_processed(self) -> u64 {
        self.total_bytes_processed
    }

    /// The compression statistics.
    pub closed spec fn stats(self) -> CompressionStats {
        self.compression_stats
    }

    /// A processor that has seen nothing.
    pub fn new() -> (p: Self)
        ensures
            p.processed().len() == 0,
            p.bytes_processed() == 0,
            p.stats() == (CompressionStats {
                total_compressed_bytes: 0,
                total_uncompressed_bytes: 0,
                average_ratio_permille: 0,
                best_ratio_permille: 0,
                worst_ratio_permille: 0,
                packages_processed: 0,
            }),
    {
        DataProcessor {
            processed_packages: Vec::new(),
            total_bytes_processed: 0,
            compression_stats: CompressionStats::default(),
        }
    }

    /// The quality of a package.
    fn analyze_quality(&self, package: &ScienceDataPackage, data: &[u8]) -> (q: u8)
        ensures
            q == package_quality(data@.len(), package.metadata@.len() > 0, package.compression_ratio_permille),
    {
        let mut score: i32 = 100;
        if data.len() < 100 {
            score = score - 20;
        }
        if package.metadata.len() == 0 {
            score = score - 10;
        }
        if package.compression_ratio_permille > 10000 {
            score = score + 5;
        }
        if score > 100 { 100 } else if score < 0 { 0 } else { score as u8 }
    }

    /// The anomalies of a package at `now`.
    fn detect_anomalies(&self, package: &ScienceDataPackage, data: &[u8], now: i64) -> (a: Vec<String>)
        requires
            in_clock_range(now),
            in_clock_range(package.timestamp),
        ensures
            a@.map_values(|s: String| s@) == package_anomalies(data@, package.timestamp, now),
    {
        let mut anomalies: Vec<String> = Vec::new();
        if every_byte_is(data, 0) {
            anomalies.push("All-zero data detected — possible sensor failure".to_string());
        }
        if every_byte_is(data, 255) {
            anomalies.push("All-255 data detected — possible saturation".to_string());
        }
        let secs = whole_seconds((now as i128) - (package.timestamp as i128));
        let days: i128 = if secs >= 0 { secs / 86400 } else { -((-secs) / 86400) };
        if days > 365 {
            let mut m = concat2("Data age: ", i64_to_decimal(days as i64).as_str());
            m.append(" days — possible timestamp error");
            anomalies.push(m);
        }
        proof {
            assert(anomalies@.map_values(|s: String| s@) =~= package_anomalies(data@, package.timestamp, now));
        }
        anomalies
    }

    /// Processes a package with its raw data at `now`, taking
    /// `elapsed_ms` to do it: a package whose data does not match its
    /// digest fails; else it is scored, checked for anomalies, stored
    /// under /data/science/<kind>/<id> and counted in the statistics.
    pub fn process_package_at(&mut self, package: ScienceDataPackage, raw_data: &[u8], now: i64, elapsed_ms: u64) -> (r: ProcessingResult)
        requires
            in_clock_range(now),
            spec_hex(spec_sha3_256(raw_data@)) == package.hash@ ==> {
                &&& in_clock_range(package.timestamp)
                &&& old(self).bytes_processed() + package.uncompressed_size_bytes <= u64::MAX
                &&& old(self).stats().total_compressed_bytes + package.compressed_size_bytes <= u64::MAX
                &&& old(self).stats().total_uncompressed_bytes + package.uncompressed_size_bytes <= u64::MAX
                &&& old(self).stats().packages_processed < u32::MAX
            },
        ensures
            processed_at(*old(self), *final(self), package, raw_data@, now, elapsed_ms, r),
    {
        let digest = sha3_256(raw_data);
        let computed = hex_encode(digest.as_slice());
        if !str_eq(computed.as_str(), package.hash.as_str()) {
            let mut anomalies: Vec<String> = Vec::new();
            anomalies.push("Data integrity compromised".to_string());
            proof {
                assert(anomalies@.map_values(|s: String| s@) =~= seq!["Data integrity compromised"@]);
            }
            return ProcessingResult {
                package_id: package.id,
                status: ProcessingStatus::Failed { reason: "Hash mismatch".to_string() },
                processing_time_ms: elapsed_ms,
                output_path: String::new(),
                quality_score: 0,
                anomalies_detected: anomalies,
            };
        }
        let quality = self.analyze_quality(&package, raw_data);
        let anomalies = self.detect_anomalies(&package, raw_data, now);
        let mut output_path = concat2("/data/science/", package.data_type.name());
        output_path.append("/");
        output_path.append(package.id.as_str());

        self.total_bytes_processed = self.total_bytes_processed + package.uncompressed_size_bytes;
        let mut st = self.compression_stats;
        st.packages_processed = st.packages_processed + 1;
        st.total_compressed_bytes = st.total_compressed_bytes + package.compressed_size_bytes;
        st.total_uncompressed_bytes = st.total_uncompressed_bytes + package.uncompressed_size_bytes;
        let ratio = package.compression_ratio_permille;
        if ratio > st.best_ratio_permille {
            st.best_ratio_permille = ratio;
        }
        if ratio < st.worst_ratio_permille || st.worst_ratio_permille == 0 {
            st.worst_ratio_permille = ratio;
        }
        let denom: u128 = if st.total_compressed_bytes > 1 { st.total_compressed_bytes as u128 } else { 1 };
        st.average_ratio_permille = (st.total_uncompressed_bytes as u128) * 1000 / denom;
        self.compression_stats = st;

        let stored = ProcessingResult {
            package_id: package.id.clone(),
            status: ProcessingStatus::Completed,
            processing_time_ms: elapsed_ms,
            output_path: output_path.clone(),
            quality_score: quality,
            anomalies_detected: copy_texts(&anomalies),
        };
        let ghost before = self.processed_packages@;
        self.processed_packages.push(stored);
        proof {
            assert(self.processed_packages@.drop_last() =~= before);
        }
        ProcessingResult {
            package_id: package.id,
            status: ProcessingStatus::Completed,
            processing_time_ms: elapsed_ms,
            output_path,
            quality_score: quality,
            anomalies_detected: anomalies,
        }
    }

    /// Processes a package now, timing the work on the wall clock (0 if
    /// the clock went back).
    pub fn process_package(&mut self, package: ScienceDataPackage, raw_data: &[u8]) -> (r: ProcessingResult)
        requires
            spec_hex(spec_sha3_256(raw_data@)) == package.hash@ ==> {
                &&& in_clock_range(package.timestamp)
                &&& old(self).bytes_processed() + package.uncompressed_size_bytes <= u64::MAX
                &&& old(self).stats().total_compressed_bytes + package.compressed_size_bytes <= u64::MAX
                &&& old(self).stats().total_uncompressed_bytes + package.uncompressed_size_bytes <= u64::MAX
                &&& old(self).stats().packages_processed < u32::MAX
            },
        ensures
            exists|now: i64, elapsed_ms: u64| in_clock_range(now) && #[trigger] processed_at(
                *old(self),
                *final(self),
                package,
                raw_data@,
                now,
                elapsed_ms,
                r,
            ),
    {
        let start = now_millis();
        let now = now_millis();
        let elapsed: u64 = if now >= start { (now - start) as u64 } else { 0 };
        self.process_package_at(package, raw_data, now, elapsed)
    }

    /// Whether the totals can take a package that matches its digest, and
    /// its timestamp lies in the clock's range.
    pub open spec fn can_take(self, package: ScienceDataPackage) -> bool {
        &&& in_clock_range(package.timestamp)
        &&& self.bytes_processed() + package.uncompressed_size_bytes <= u64::MAX
        &&& self.stats().total_compressed_bytes + package.compressed_size_bytes <= u64::MAX
        &&& self.stats().total_uncompressed_bytes + package.uncompressed_size_bytes <= u64::MAX
        &&& self.stats().packages_processed < u32::MAX
    }

    /// Processes a package now, unless it matches its digest and the
    /// totals cannot take it (or its timestamp is out of the clock's
    /// range): then `None`, with nothing changed.
    pub fn process_package_checked(&mut self, package: ScienceDataPackage, raw_data: &[u8]) -> (r: Option<ProcessingResult>)
        ensures
            r is None <==> (spec_hex(spec_sha3_256(raw_data@)) == package.hash@ && !old(self).can_take(package)),
            r is None ==> *final(self) == *old(self),
            r matches Some(res) ==> exists|now: i64, elapsed_ms: u64| in_clock_range(now) && #[trigger] processed_at(
                *old(self),
                *final(self),
                package,
                raw_data@,
                now,
                elapsed_ms,
                res,
            ),
    {
        let digest = sha3_256(raw_data);
        let computed = hex_encode(digest.as_slice());
        if str_eq(computed.as_str(), package.hash.as_str()) {
            let st = self.compression_stats;
            let fits = -10_000_000_000_000_000 < package.timestamp && package.timestamp < 10_000_000_000_000_000
                && package.uncompressed_size_bytes <= u64::MAX - self.total_bytes_processed
                && package.compressed_size_bytes <= u64::MAX - st.total_compressed_bytes
                && package.uncompressed_size_bytes <= u64::MAX - st.total_uncompressed_bytes
                && st.packages_processed < u32::MAX;
            if !fits {
                return None;
            }
        }
        Some(self.process_package(package, raw_data))
    }

    /// The compression statistics.
    pub fn get_stats(&self) -> (s: &CompressionStats)
        ensures
            *s == self.stats(),
    {
        &self.compression_stats
    }

    /// The results, in order.
    pub fn results(&self) -> (r: &[ProcessingResult])
        ensures
            r@ == self.processed(),
    {
        self.processed_packages.as_slice()
    }

    /// Uncompressed bytes processed.
    pub fn total_processed_bytes(&self) -> (n: u64)
        ensures
            n == self.bytes_processed(),
    {
        self.total_bytes_processed
    }
}

/// A copy of some texts.
fn copy_texts(v: &Vec<String>) -> (r: Vec<String>)
    ensures
        r@ == v@,
{
    let mut r: Vec<String> = Vec::new();
    let mut i: usize = 0;
    while i < v.len()
        invariant
            i <= v@.len(),
            r@ == v@.take(i as int),
        decreases v@.len() - i,
    {
        r.push(v[i].clone());
        proof {
            assert(r@ =~= v@.take(i + 1));
        }
        i = i + 1;
    }
    proof {
        assert(v@.take(v@.len() as int) =~= v@);
    }
    r
}

} // verus!
